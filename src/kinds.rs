use vstd::prelude::*;

verus! {

/// The token that, in first position only, turns line numbering on.
pub open spec fn flag_token() -> Seq<char> {
    seq!['-', 'n']
}

/// Whether the argument list asks for numbered output: its first token is the flag.
pub open spec fn numbering_of(args: Seq<Seq<char>>) -> bool {
    args.len() > 0 && args[0] == flag_token()
}

/// The files named by the argument list, in order: every token but a leading flag.
pub open spec fn files_of(args: Seq<Seq<char>>) -> Seq<Seq<char>> {
    if numbering_of(args) {
        args.drop_first()
    } else {
        args
    }
}

/// What a run does: whether lines are numbered, and which files are shown, in order.
pub struct Config {
    pub number: bool,
    pub files: Vec<String>,
}

impl Config {
    /// Creates a new configuration from the given args.
    /// If the first argument is "-n", output will be numbered;
    /// all other input is read as file names, a later "-n" included.
    /// No argument list is rejected.
    pub fn new(vals: Vec<String>) -> (r: Result<Config, &'static str>)
        ensures
            r is Ok,
            r matches Ok(cfg) ==> cfg.number == numbering_of(vals.deep_view()),
            r matches Ok(cfg) ==> cfg.files.deep_view() == files_of(vals.deep_view()),
    {
        let ghost args = vals.deep_view();
        let mut files = vals;
        let mut number = false;
        if files.len() > 0 {
            let flag = String::from_str("-n");
            proof {
                reveal_strlit("-n");
                assert(flag@ =~= flag_token());
            }
            if files[0] == flag {
                number = true;
                let _ = files.remove(0);
                assert(files.deep_view() =~= args.drop_first());
            }
        }
        Ok(Config { number, files })
    }
}

} // verus!
