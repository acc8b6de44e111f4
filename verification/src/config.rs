//! The core's settings.
use vstd::prelude::*;
use crate::capture::strings_view;
use crate::keyed::same_text;
use crate::observation::ObservationLevel;
use crate::text::push_str;

verus! {

/// Settings of the core service. Paths are held as text.
#[derive(Debug, Clone)]
pub struct CoreConfig {
    pub default_observation_level: ObservationLevel,
    pub deep_inspection_timeout_secs: u64,
    pub database: String,
    pub bpf_object_dir: String,
    pub preferred_userspace_runtime: String,
    pub plaintext_storage: String,
}

impl Default for CoreConfig {
    /// Metadata by default, five minutes of deep inspection, the database
    /// and BPF objects beside the working directory, bpftime preferred,
    /// plaintext kept in memory.
    fn default() -> (r: Self)
        ensures
            r.default_observation_level == ObservationLevel::L1,
            r.deep_inspection_timeout_secs == 300,
            r.database@ == "tracelens.db"@,
            r.bpf_object_dir@ == "build/bpf/objects"@,
            r.preferred_userspace_runtime@ == "bpftime"@,
            r.plaintext_storage@ == "memory"@,
    {
        CoreConfig {
            default_observation_level: ObservationLevel::L1,
            deep_inspection_timeout_secs: 300,
            database: "tracelens.db".to_string(),
            bpf_object_dir: "build/bpf/objects".to_string(),
            preferred_userspace_runtime: "bpftime".to_string(),
            plaintext_storage: "memory".to_string(),
        }
    }
}

/// The API address used unless the command line names another.
pub fn default_api_listen() -> (r: &'static str)
    ensures
        r@ == "127.0.0.1:8080"@,
{
    "127.0.0.1:8080"
}

/// The command line of the core service. Each `--api-listen` value is kept
/// in order, as given: whether one is a socket address is decided where the
/// listener is opened, an invalid one leaving the address before it.
#[derive(Debug)]
pub struct CliOptions {
    pub config: CoreConfig,
    pub api_listen: Vec<String>,
    pub observe: bool,
    pub print_example_event: bool,
    pub help: bool,
    /// What the command line got wrong, one line each.
    pub warnings: Vec<String>,
}

/// What a command line sets, as values.
pub struct CliView {
    pub bpf_object_dir: Option<Seq<char>>,
    pub api_listen: Seq<Seq<char>>,
    pub observe: bool,
    pub print_example_event: bool,
    pub help: bool,
    pub warnings: Seq<Seq<char>>,
}

pub open spec fn cli_start() -> CliView {
    CliView {
        bpf_object_dir: None,
        api_listen: Seq::empty(),
        observe: false,
        print_example_event: false,
        help: false,
        warnings: Seq::empty(),
    }
}

pub open spec fn warned(s: CliView, w: Seq<char>) -> CliView {
    CliView { warnings: s.warnings.push(w), ..s }
}

/// Reads the remaining arguments `args` on top of what `s` has read:
/// `--config` and its value are skipped, `--api-listen` and
/// `--bpf-object-dir` take the next argument (a warning where there is none),
/// flags set themselves, and anything else is warned about and ignored.
pub open spec fn cli_parse(args: Seq<Seq<char>>, s: CliView) -> CliView
    decreases args.len(),
{
    if args.len() == 0 {
        s
    } else {
        let a = args[0];
        let rest = args.drop_first();
        if a == "--config"@ {
            if rest.len() == 0 {
                s
            } else {
                cli_parse(rest.drop_first(), s)
            }
        } else if a == "--api-listen"@ {
            if rest.len() == 0 {
                warned(s, "--api-listen requires an address"@)
            } else {
                cli_parse(rest.drop_first(), CliView { api_listen: s.api_listen.push(rest[0]), ..s })
            }
        } else if a == "--bpf-object-dir"@ {
            if rest.len() == 0 {
                warned(s, "--bpf-object-dir requires a path"@)
            } else {
                cli_parse(rest.drop_first(), CliView { bpf_object_dir: Some(rest[0]), ..s })
            }
        } else if a == "--observe"@ {
            cli_parse(rest, CliView { observe: true, ..s })
        } else if a == "--print-example-event"@ {
            cli_parse(rest, CliView { print_example_event: true, ..s })
        } else if a == "-h"@ || a == "--help"@ {
            cli_parse(rest, CliView { help: true, ..s })
        } else {
            cli_parse(rest, warned(s, "ignoring unknown option: "@ + a))
        }
    }
}

impl CliOptions {
    /// Reads the command line (without the program name).
    pub fn from_args(args: Vec<String>) -> (r: Self)
        ensures
            ({
                let v = cli_parse(strings_view(args@), cli_start());
                &&& r.config.default_observation_level == ObservationLevel::L1
                &&& r.config.deep_inspection_timeout_secs == 300
                &&& r.config.database@ == "tracelens.db"@
                &&& r.config.bpf_object_dir@ == match v.bpf_object_dir {
                    Some(d) => d,
                    None => "build/bpf/objects"@,
                }
                &&& r.config.preferred_userspace_runtime@ == "bpftime"@
                &&& r.config.plaintext_storage@ == "memory"@
                &&& strings_view(r.api_listen@) == v.api_listen
                &&& r.observe == v.observe
                &&& r.print_example_event == v.print_example_event
                &&& r.help == v.help
                &&& strings_view(r.warnings@) == v.warnings
            }),
    {
        let ghost all = strings_view(args@);
        let mut config = CoreConfig::default();
        let mut api_listen: Vec<String> = Vec::new();
        let mut observe = false;
        let mut print_example_event = false;
        let mut help = false;
        let mut warnings: Vec<String> = Vec::new();
        let mut dir_given = false;
        let mut i: usize = 0;
        let n = args.len();
        assert(all.skip(0) =~= all);
        assert(strings_view(api_listen@) =~= Seq::<Seq<char>>::empty());
        assert(strings_view(warnings@) =~= Seq::<Seq<char>>::empty());
        while i < n
            invariant
                n == args@.len(),
                all == strings_view(args@),
                i <= n,
                config.default_observation_level == ObservationLevel::L1,
                config.deep_inspection_timeout_secs == 300,
                config.database@ == "tracelens.db"@,
                config.preferred_userspace_runtime@ == "bpftime"@,
                config.plaintext_storage@ == "memory"@,
                !dir_given ==> config.bpf_object_dir@ == "build/bpf/objects"@,
                cli_parse(all.skip(i as int), CliView {
                    bpf_object_dir: if dir_given { Some(config.bpf_object_dir@) } else { None },
                    api_listen: strings_view(api_listen@),
                    observe,
                    print_example_event,
                    help,
                    warnings: strings_view(warnings@),
                }) == cli_parse(all, cli_start()),
            decreases n - i,
        {
            let ghost s = CliView {
                bpf_object_dir: if dir_given { Some(config.bpf_object_dir@) } else { None },
                api_listen: strings_view(api_listen@),
                observe,
                print_example_event,
                help,
                warnings: strings_view(warnings@),
            };
            let ghost rest = all.skip(i as int);
            assert(rest[0] == args@[i as int]@);
            assert(rest.drop_first() =~= all.skip(i + 1));
            let a = args[i].as_str();
            if same_text(a, "--config") {
                if i + 1 < n {
                    assert(rest.drop_first().drop_first() =~= all.skip(i + 2));
                    i = i + 2;
                } else {
                    i = n;
                    assert(all.skip(i as int) =~= Seq::<Seq<char>>::empty());
                }
            } else if same_text(a, "--api-listen") {
                if i + 1 < n {
                    assert(rest.drop_first()[0] == args@[i + 1]@);
                    assert(rest.drop_first().drop_first() =~= all.skip(i + 2));
                    api_listen.push(args[i + 1].clone());
                    assert(strings_view(api_listen@) =~= s.api_listen.push(args@[i + 1]@));
                    i = i + 2;
                } else {
                    let mut w = String::new();
                    push_str(&mut w, "--api-listen requires an address");
                    warnings.push(w);
                    assert(strings_view(warnings@) =~= s.warnings.push("--api-listen requires an address"@));
                    i = n;
                    assert(all.skip(i as int) =~= Seq::<Seq<char>>::empty());
                }
            } else if same_text(a, "--bpf-object-dir") {
                if i + 1 < n {
                    assert(rest.drop_first()[0] == args@[i + 1]@);
                    assert(rest.drop_first().drop_first() =~= all.skip(i + 2));
                    config.bpf_object_dir = args[i + 1].clone();
                    dir_given = true;
                    i = i + 2;
                } else {
                    let mut w = String::new();
                    push_str(&mut w, "--bpf-object-dir requires a path");
                    warnings.push(w);
                    assert(strings_view(warnings@) =~= s.warnings.push("--bpf-object-dir requires a path"@));
                    i = n;
                    assert(all.skip(i as int) =~= Seq::<Seq<char>>::empty());
                }
            } else if same_text(a, "--observe") {
                observe = true;
                i = i + 1;
            } else if same_text(a, "--print-example-event") {
                print_example_event = true;
                i = i + 1;
            } else if same_text(a, "-h") || same_text(a, "--help") {
                help = true;
                i = i + 1;
            } else {
                let mut w = String::new();
                push_str(&mut w, "ignoring unknown option: ");
                push_str(&mut w, a);
                warnings.push(w);
                assert(strings_view(warnings@) =~= s.warnings.push("ignoring unknown option: "@ + a@));
                i = i + 1;
            }
        }
        assert(all.skip(i as int) =~= Seq::<Seq<char>>::empty());
        CliOptions { config, api_listen, observe, print_example_event, help, warnings }
    }
}

} // verus!
