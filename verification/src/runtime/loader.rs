//! The command line of the bpftime loader: which object it loads, which
//! program it attaches to which function of which library in which process.
use vstd::prelude::*;
use crate::capture::strings_view;
use crate::keyed::same_text;
use crate::text::{chars_of, parse_bounded, parse_unsigned, push_str};

verus! {

#[derive(Debug, Clone, PartialEq, Eq)]
pub struct LoaderOptions {
    pub pid: u32,
    pub object: String,
    pub library: String,
    pub function: String,
    pub program: String,
    pub retprobe: bool,
    pub companion_program: Option<String>,
    pub companion_retprobe: bool,
}

/// What the loader's command line asks for.
#[derive(Debug, Clone, PartialEq, Eq)]
pub enum LoaderCommand {
    /// Print the usage line and stop.
    Help,
    Attach(LoaderOptions),
}

/// What the arguments read so far set.
pub struct LoaderView {
    pub pid: Option<u32>,
    pub object: Option<Seq<char>>,
    pub library: Option<Seq<char>>,
    pub function: Option<Seq<char>>,
    pub program: Option<Seq<char>>,
    pub retprobe: bool,
    pub companion_program: Option<Seq<char>>,
    pub companion_retprobe: bool,
}

pub enum LoaderOutcome {
    Help,
    Failed(Seq<char>),
    Read(LoaderView),
}

pub open spec fn loader_start() -> LoaderView {
    LoaderView {
        pid: None,
        object: None,
        library: None,
        function: None,
        program: None,
        retprobe: false,
        companion_program: None,
        companion_retprobe: false,
    }
}

/// Options that take the next argument as their value.
pub open spec fn takes_value(a: Seq<char>) -> bool {
    a == "--pid"@ || a == "--object"@ || a == "--library"@ || a == "--function"@ || a == "--program"@
        || a == "--companion-program"@
}

/// Reads the remaining arguments on top of `s`: the first problem ends the
/// reading, as does a request for help.
pub open spec fn loader_parse(args: Seq<Seq<char>>, s: LoaderView) -> LoaderOutcome
    decreases args.len(),
{
    if args.len() == 0 {
        LoaderOutcome::Read(s)
    } else {
        let a = args[0];
        let rest = args.drop_first();
        if takes_value(a) {
            if rest.len() == 0 {
                LoaderOutcome::Failed(a + " requires a value"@)
            } else {
                let v = rest[0];
                let next = rest.drop_first();
                if a == "--pid"@ {
                    match parse_bounded(v, 10, u32::MAX as nat) {
                        Some(p) => loader_parse(next, LoaderView { pid: Some(p as u32), ..s }),
                        None => LoaderOutcome::Failed("--pid must be a positive integer"@),
                    }
                } else if a == "--object"@ {
                    loader_parse(next, LoaderView { object: Some(v), ..s })
                } else if a == "--library"@ {
                    loader_parse(next, LoaderView { library: Some(v), ..s })
                } else if a == "--function"@ {
                    loader_parse(next, LoaderView { function: Some(v), ..s })
                } else if a == "--program"@ {
                    loader_parse(next, LoaderView { program: Some(v), ..s })
                } else {
                    loader_parse(next, LoaderView { companion_program: Some(v), ..s })
                }
            }
        } else if a == "--retprobe"@ {
            loader_parse(rest, LoaderView { retprobe: true, ..s })
        } else if a == "--companion-retprobe"@ {
            loader_parse(rest, LoaderView { companion_retprobe: true, ..s })
        } else if a == "-h"@ || a == "--help"@ {
            LoaderOutcome::Help
        } else {
            LoaderOutcome::Failed("unknown argument `"@ + a + "`"@)
        }
    }
}

/// The first required option that is missing, if any.
pub open spec fn missing_option(s: LoaderView) -> Option<Seq<char>> {
    if s.pid is None {
        Some("--pid is required"@)
    } else if s.object is None {
        Some("--object is required"@)
    } else if s.library is None {
        Some("--library is required"@)
    } else if s.function is None {
        Some("--function is required"@)
    } else if s.program is None {
        Some("--program is required"@)
    } else {
        None
    }
}

pub open spec fn options_match(o: LoaderOptions, s: LoaderView) -> bool {
    &&& s.pid == Some(o.pid)
    &&& s.object == Some(o.object@)
    &&& s.library == Some(o.library@)
    &&& s.function == Some(o.function@)
    &&& s.program == Some(o.program@)
    &&& o.retprobe == s.retprobe
    &&& match (o.companion_program, s.companion_program) {
        (Some(a), Some(b)) => a@ == b,
        (None, None) => true,
        _ => false,
    }
    &&& o.companion_retprobe == s.companion_retprobe
}

fn message(text: &str) -> (r: String)
    ensures
        r@ == text@,
{
    let mut s = String::new();
    push_str(&mut s, text);
    s
}

fn owned_text(v: &Option<String>) -> (r: Option<String>)
    ensures
        r == *v,
{
    match v {
        Some(s) => Some(s.clone()),
        None => None,
    }
}

impl LoaderCommand {
    /// Reads the loader's command line (without the program name).
    pub fn from_args(args: Vec<String>) -> (r: Result<LoaderCommand, String>)
        ensures
            match loader_parse(strings_view(args@), loader_start()) {
                LoaderOutcome::Help => r == Ok::<LoaderCommand, String>(LoaderCommand::Help),
                LoaderOutcome::Failed(m) => r matches Err(e) && e@ == m,
                LoaderOutcome::Read(s) => match missing_option(s) {
                    Some(m) => r matches Err(e) && e@ == m,
                    None => r matches Ok(LoaderCommand::Attach(o)) && options_match(o, s),
                },
            },
    {
        let ghost all = strings_view(args@);
        let mut pid: Option<u32> = None;
        let mut object: Option<String> = None;
        let mut library: Option<String> = None;
        let mut function: Option<String> = None;
        let mut program: Option<String> = None;
        let mut retprobe = false;
        let mut companion_program: Option<String> = None;
        let mut companion_retprobe = false;
        let n = args.len();
        let mut i: usize = 0;
        assert(all.skip(0) =~= all);
        while i < n
            invariant
                n == args@.len(),
                all == strings_view(args@),
                i <= n,
                loader_parse(all.skip(i as int), LoaderView {
                    pid,
                    object: match object { Some(x) => Some(x@), None => None },
                    library: match library { Some(x) => Some(x@), None => None },
                    function: match function { Some(x) => Some(x@), None => None },
                    program: match program { Some(x) => Some(x@), None => None },
                    retprobe,
                    companion_program: match companion_program { Some(x) => Some(x@), None => None },
                    companion_retprobe,
                }) == loader_parse(all, loader_start()),
            decreases n - i,
        {
            let ghost rest = all.skip(i as int);
            assert(rest[0] == args@[i as int]@);
            assert(rest.drop_first() =~= all.skip(i + 1));
            let a = args[i].as_str();
            let named = same_text(a, "--pid") || same_text(a, "--object") || same_text(a, "--library")
                || same_text(a, "--function") || same_text(a, "--program") || same_text(a, "--companion-program");
            if named {
                if i + 1 >= n {
                    let mut e = String::new();
                    push_str(&mut e, a);
                    push_str(&mut e, " requires a value");
                    return Err(e);
                }
                assert(rest.drop_first()[0] == args@[i + 1]@);
                assert(rest.drop_first().drop_first() =~= all.skip(i + 2));
                let v = &args[i + 1];
                if same_text(a, "--pid") {
                    let digits = chars_of(v.as_str());
                    assert(digits@.subrange(0, digits@.len() as int) =~= v@);
                    match parse_unsigned(&digits, 0, digits.len(), 10, 0xffff_ffff) {
                        Some(p) => {
                            pid = Some(p as u32);
                        },
                        None => {
                            return Err(message("--pid must be a positive integer"));
                        },
                    }
                } else if same_text(a, "--object") {
                    object = Some(v.clone());
                } else if same_text(a, "--library") {
                    library = Some(v.clone());
                } else if same_text(a, "--function") {
                    function = Some(v.clone());
                } else if same_text(a, "--program") {
                    program = Some(v.clone());
                } else {
                    companion_program = Some(v.clone());
                }
                i = i + 2;
            } else if same_text(a, "--retprobe") {
                retprobe = true;
                i = i + 1;
            } else if same_text(a, "--companion-retprobe") {
                companion_retprobe = true;
                i = i + 1;
            } else if same_text(a, "-h") || same_text(a, "--help") {
                return Ok(LoaderCommand::Help);
            } else {
                let mut e = String::new();
                push_str(&mut e, "unknown argument `");
                push_str(&mut e, a);
                push_str(&mut e, "`");
                return Err(e);
            }
        }
        assert(all.skip(i as int) =~= Seq::<Seq<char>>::empty());
        let pid = match pid {
            Some(p) => p,
            None => return Err(message("--pid is required")),
        };
        let object = match owned_text(&object) {
            Some(x) => x,
            None => return Err(message("--object is required")),
        };
        let library = match owned_text(&library) {
            Some(x) => x,
            None => return Err(message("--library is required")),
        };
        let function = match owned_text(&function) {
            Some(x) => x,
            None => return Err(message("--function is required")),
        };
        let program = match owned_text(&program) {
            Some(x) => x,
            None => return Err(message("--program is required")),
        };
        Ok(
            LoaderCommand::Attach(
                LoaderOptions {
                    pid,
                    object,
                    library,
                    function,
                    program,
                    retprobe,
                    companion_program,
                    companion_retprobe,
                },
            ),
        )
    }
}

} // verus!
