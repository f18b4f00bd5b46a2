//! Program configuration: the parsed command line and the settings derived
//! from it.

use vstd::prelude::*;

verus! {

/// Cursor sentinel for "no search match selected".
pub const NO_SELECTION: usize = 9999999;

/// Placeholder shown for a cookie value that is only present in encrypted
/// form.
pub fn encrypted_value_label() -> (r: &'static str)
    ensures
        r@ == "********"@,
{
    "********"
}

/// The meta field selector that stands for every cookie field.
pub fn all_fields_label() -> (r: &'static str)
    ensures
        r@ == "All"@,
{
    "All"
}

/// One parsed subcommand, as plain values.
pub enum SubArgs {
    /// List cookies.
    Cookies { no_heading: bool, list_fields: bool, fields: String, domain: String },
    /// Remove cookies non-interactively.
    Clean { whitelist: String, apply: bool },
    /// Interactive view of cookies across all browsers.
    Tui {},
}

/// The parsed command line, as plain values.
pub struct Args {
    /// Output debugging information.
    pub debug: bool,
    /// Disable colored output.
    pub nocolor: bool,
    /// Only include entries from a specific browser profile.
    pub profile: String,
    /// List valid browser profiles.
    pub list_profiles: bool,
    /// Perform all commands on a supplied cookie database.
    pub file: String,
    /// The subcommand, if one was given.
    pub subargs: Option<SubArgs>,
}

/// The settings that the rest of the program consults.
#[derive(Debug)]
pub struct Config {
    pub err_exit: i32,
    pub debug: bool,
    pub nocolor: bool,
    pub fields: String,
    pub no_heading: bool,
    pub list_fields: bool,
    pub domain: String,
    pub clean: bool,
    pub whitelist: String,
    pub apply: bool,
    pub tui: bool,
}

/// All switches off, all strings empty, error exit code 1.
pub open spec fn config_is_default(c: &Config) -> bool {
    c.err_exit == 1 && !c.debug && !c.nocolor && c.fields@ == Seq::<char>::empty()
        && !c.no_heading && !c.list_fields && c.domain@ == Seq::<char>::empty() && !c.clean
        && c.whitelist@ == Seq::<char>::empty() && !c.apply && !c.tui
}

impl Default for Config {
    fn default() -> (r: Config)
        ensures
            config_is_default(&r),
    {
        Config {
            err_exit: 1,
            debug: false,
            whitelist: String::new(),
            no_heading: false,
            fields: String::new(),
            list_fields: false,
            domain: String::new(),
            nocolor: false,
            tui: false,
            clean: false,
            apply: false,
        }
    }
}

impl Config {
    /// Initialise a new configuration from parsed arguments: the global
    /// switches are copied, and the fields of the given subcommand, if any,
    /// override their defaults.
    pub fn from_args(args: &Args) -> (r: Config)
        ensures
            r.debug == args.debug,
            r.nocolor == args.nocolor,
            r.err_exit == 1,
            match args.subargs {
                Option::Some(
                    SubArgs::Cookies { no_heading, list_fields, ref fields, ref domain },
                ) => r.no_heading == no_heading && r.list_fields == list_fields && r.fields@
                    == fields@ && r.domain@ == domain@ && !r.clean && !r.apply && !r.tui
                    && r.whitelist@ == Seq::<char>::empty(),
                Option::Some(SubArgs::Clean { ref whitelist, apply }) => r.clean && r.apply
                    == apply && r.whitelist@ == whitelist@ && !r.tui && !r.no_heading
                    && !r.list_fields && r.fields@ == Seq::<char>::empty() && r.domain@
                    == Seq::<char>::empty(),
                Option::Some(SubArgs::Tui {  }) => r.tui && !r.clean && !r.apply && !r.no_heading
                    && !r.list_fields && r.fields@ == Seq::<char>::empty() && r.domain@
                    == Seq::<char>::empty() && r.whitelist@ == Seq::<char>::empty(),
                Option::None => !r.tui && !r.clean && !r.apply && !r.no_heading && !r.list_fields
                    && r.fields@ == Seq::<char>::empty() && r.domain@ == Seq::<char>::empty()
                    && r.whitelist@ == Seq::<char>::empty(),
            },
    {
        let mut cfg = Config::default();
        cfg.nocolor = args.nocolor;
        cfg.debug = args.debug;
        match &args.subargs {
            Option::Some(SubArgs::Cookies { no_heading, list_fields, fields, domain }) => {
                cfg.no_heading = *no_heading;
                cfg.list_fields = *list_fields;
                cfg.domain = domain.clone();
                cfg.fields = fields.clone();
                cfg
            },
            Option::Some(SubArgs::Clean { whitelist, apply }) => {
                cfg.clean = true;
                cfg.apply = *apply;
                cfg.whitelist = whitelist.clone();
                cfg
            },
            Option::Some(SubArgs::Tui {  }) => {
                cfg.tui = true;
                cfg
            },
            Option::None => cfg,
        }
    }
}

} // verus!
