//! The userspace probe catalogue and the text forms the bpftime loader reads.
use vstd::prelude::*;
use crate::text::{chars_of, field_ranges, has_substring, push_decimal, push_str, string_of, white_fields};
use super::provider::{file_name, opt_view, provider_label, TlsProvider};
use super::ProbeKind;

verus! {

/// One uprobe program, the library function it hooks, and an optional
/// companion program on the same function.
#[derive(Debug, Clone, Copy, PartialEq, Eq)]
pub struct ProbeSpec {
    pub object_file: &'static str,
    pub program_name: &'static str,
    pub function_name: &'static str,
    pub retprobe: bool,
    pub companion_program_name: Option<&'static str>,
    pub companion_retprobe: bool,
}

/// A probe as plain text: object, program, function, return probe, companion.
pub type SpecView = (Seq<char>, Seq<char>, Seq<char>, bool, Option<Seq<char>>, bool);

pub open spec fn spec_view(p: ProbeSpec) -> SpecView {
    (
        p.object_file@,
        p.program_name@,
        p.function_name@,
        p.retprobe,
        match p.companion_program_name {
            Some(c) => Some(c@),
            None => None,
        },
        p.companion_retprobe,
    )
}

pub open spec fn specs_view(v: Seq<ProbeSpec>) -> Seq<SpecView> {
    v.map_values(|p: ProbeSpec| spec_view(p))
}

pub open spec fn entry(object: Seq<char>, program: Seq<char>, function: Seq<char>, retprobe: bool) -> SpecView {
    (object, program, function, retprobe, None, false)
}

pub open spec fn paired(object: Seq<char>, program: Seq<char>, function: Seq<char>, companion: Seq<char>) -> SpecView {
    (object, program, function, false, Some(companion), true)
}

/// The OpenSSL-family catalogue.
pub open spec fn openssl_specs(p: ProbeKind) -> Seq<SpecView> {
    match p {
        ProbeKind::Tls => seq![
            entry("openssl.o"@, "tracelens_openssl_connect"@, "SSL_connect"@, false),
            entry("openssl.o"@, "tracelens_tls_servername"@, "SSL_get_servername"@, true),
            entry("openssl.o"@, "tracelens_tls_version"@, "SSL_get_version"@, true),
            entry("openssl.o"@, "tracelens_tls_fd"@, "SSL_get_fd"@, true),
            entry("openssl.o"@, "tracelens_tls_set_fd"@, "SSL_set_fd"@, false),
        ],
        ProbeKind::Http => Seq::empty(),
        ProbeKind::Plaintext => seq![
            paired("openssl.o"@, "tracelens_plaintext_read_enter"@, "SSL_read"@, "tracelens_plaintext_read_exit"@),
            entry("openssl.o"@, "tracelens_plaintext_write"@, "SSL_write"@, false),
            paired("openssl.o"@, "tracelens_plaintext_read_ex_enter"@, "SSL_read_ex"@, "tracelens_plaintext_read_ex_exit"@),
            paired("openssl.o"@, "tracelens_plaintext_write_ex_enter"@, "SSL_write_ex"@, "tracelens_plaintext_write_ex_exit"@),
        ],
    }
}

/// The catalogue of each provider.
pub open spec fn provider_specs(provider: TlsProvider, p: ProbeKind) -> Seq<SpecView> {
    match (provider, p) {
        (_, ProbeKind::Http) => Seq::empty(),
        (TlsProvider::GnuTls, ProbeKind::Tls) => seq![
            entry("gnutls.o"@, "tracelens_gnutls_handshake"@, "gnutls_handshake"@, false),
            entry("gnutls.o"@, "tracelens_gnutls_set_fd"@, "gnutls_transport_set_int2"@, false),
            entry("gnutls.o"@, "tracelens_gnutls_server_name_set"@, "gnutls_server_name_set"@, false),
            paired("gnutls.o"@, "tracelens_gnutls_protocol_enter"@, "gnutls_protocol_get_version"@, "tracelens_gnutls_protocol_exit"@),
        ],
        (TlsProvider::GnuTls, ProbeKind::Plaintext) => seq![
            paired("gnutls.o"@, "tracelens_gnutls_recv_enter"@, "gnutls_record_recv"@, "tracelens_gnutls_recv_exit"@),
            paired("gnutls.o"@, "tracelens_gnutls_send_enter"@, "gnutls_record_send"@, "tracelens_gnutls_send_exit"@),
        ],
        (TlsProvider::Nss, ProbeKind::Tls) => seq![
            entry("nss.o"@, "tracelens_nss_import_fd"@, "SSL_ImportFD"@, true),
            entry("nss.o"@, "tracelens_nss_set_url"@, "SSL_SetURL"@, false),
            paired("nss.o"@, "tracelens_nss_channel_info_enter"@, "SSL_GetChannelInfo"@, "tracelens_nss_channel_info_exit"@),
        ],
        (TlsProvider::Nss, ProbeKind::Plaintext) => seq![
            paired("nss.o"@, "tracelens_nspr_read_enter"@, "PR_Read"@, "tracelens_nspr_read_exit"@),
            paired("nss.o"@, "tracelens_nspr_write_enter"@, "PR_Write"@, "tracelens_nspr_write_exit"@),
            entry("nss.o"@, "tracelens_nspr_close"@, "PR_Close"@, false),
        ],
        (TlsProvider::Rustls, ProbeKind::Tls) => seq![
            entry("rustls.o"@, "tracelens_rustls_process_packets"@, "rustls_connection_process_new_packets"@, false),
        ],
        (TlsProvider::Rustls, ProbeKind::Plaintext) => seq![
            paired("rustls.o"@, "tracelens_rustls_read_enter"@, "rustls_connection_read"@, "tracelens_rustls_read_exit"@),
            paired("rustls.o"@, "tracelens_rustls_write_enter"@, "rustls_connection_write"@, "tracelens_rustls_write_exit"@),
        ],
        (TlsProvider::OpenSsl, _) | (TlsProvider::BoringSsl, _) | (TlsProvider::LibreSsl, _) => openssl_specs(p),
        _ => Seq::empty(),
    }
}

fn single(object_file: &'static str, program_name: &'static str, function_name: &'static str, retprobe: bool) -> (r:
    ProbeSpec)
    ensures
        spec_view(r) == entry(object_file@, program_name@, function_name@, retprobe),
{
    ProbeSpec { object_file, program_name, function_name, retprobe, companion_program_name: None, companion_retprobe: false }
}

fn pair(object_file: &'static str, program_name: &'static str, function_name: &'static str, companion: &'static str) -> (r:
    ProbeSpec)
    ensures
        spec_view(r) == paired(object_file@, program_name@, function_name@, companion@),
{
    ProbeSpec {
        object_file,
        program_name,
        function_name,
        retprobe: false,
        companion_program_name: Some(companion),
        companion_retprobe: true,
    }
}

/// The OpenSSL uprobes a probe kind needs.
pub fn probe_specs(probe: ProbeKind) -> (r: Vec<ProbeSpec>)
    ensures
        specs_view(r@) == openssl_specs(probe),
{
    let mut v: Vec<ProbeSpec> = Vec::new();
    match probe {
        ProbeKind::Tls => {
            v.push(single("openssl.o", "tracelens_openssl_connect", "SSL_connect", false));
            v.push(single("openssl.o", "tracelens_tls_servername", "SSL_get_servername", true));
            v.push(single("openssl.o", "tracelens_tls_version", "SSL_get_version", true));
            v.push(single("openssl.o", "tracelens_tls_fd", "SSL_get_fd", true));
            v.push(single("openssl.o", "tracelens_tls_set_fd", "SSL_set_fd", false));
        },
        ProbeKind::Http => {},
        ProbeKind::Plaintext => {
            v.push(pair("openssl.o", "tracelens_plaintext_read_enter", "SSL_read", "tracelens_plaintext_read_exit"));
            v.push(single("openssl.o", "tracelens_plaintext_write", "SSL_write", false));
            v.push(pair("openssl.o", "tracelens_plaintext_read_ex_enter", "SSL_read_ex", "tracelens_plaintext_read_ex_exit"));
            v.push(pair("openssl.o", "tracelens_plaintext_write_ex_enter", "SSL_write_ex", "tracelens_plaintext_write_ex_exit"));
        },
    }
    assert(specs_view(v@) =~= openssl_specs(probe));
    v
}

/// The uprobes a probe kind needs in a provider's library.
pub fn provider_probe_specs(provider: TlsProvider, probe: ProbeKind) -> (r: Vec<ProbeSpec>)
    ensures
        specs_view(r@) == provider_specs(provider, probe),
{
    let mut v: Vec<ProbeSpec> = Vec::new();
    if probe == ProbeKind::Http {
        assert(specs_view(v@) =~= provider_specs(provider, probe));
        return v;
    }
    match provider {
        TlsProvider::GnuTls => {
            if probe == ProbeKind::Tls {
                v.push(single("gnutls.o", "tracelens_gnutls_handshake", "gnutls_handshake", false));
                v.push(single("gnutls.o", "tracelens_gnutls_set_fd", "gnutls_transport_set_int2", false));
                v.push(single("gnutls.o", "tracelens_gnutls_server_name_set", "gnutls_server_name_set", false));
                v.push(pair("gnutls.o", "tracelens_gnutls_protocol_enter", "gnutls_protocol_get_version", "tracelens_gnutls_protocol_exit"));
            } else {
                v.push(pair("gnutls.o", "tracelens_gnutls_recv_enter", "gnutls_record_recv", "tracelens_gnutls_recv_exit"));
                v.push(pair("gnutls.o", "tracelens_gnutls_send_enter", "gnutls_record_send", "tracelens_gnutls_send_exit"));
            }
        },
        TlsProvider::Nss => {
            if probe == ProbeKind::Tls {
                v.push(single("nss.o", "tracelens_nss_import_fd", "SSL_ImportFD", true));
                v.push(single("nss.o", "tracelens_nss_set_url", "SSL_SetURL", false));
                v.push(pair("nss.o", "tracelens_nss_channel_info_enter", "SSL_GetChannelInfo", "tracelens_nss_channel_info_exit"));
            } else {
                v.push(pair("nss.o", "tracelens_nspr_read_enter", "PR_Read", "tracelens_nspr_read_exit"));
                v.push(pair("nss.o", "tracelens_nspr_write_enter", "PR_Write", "tracelens_nspr_write_exit"));
                v.push(single("nss.o", "tracelens_nspr_close", "PR_Close", false));
            }
        },
        TlsProvider::Rustls => {
            if probe == ProbeKind::Tls {
                v.push(single("rustls.o", "tracelens_rustls_process_packets", "rustls_connection_process_new_packets", false));
            } else {
                v.push(pair("rustls.o", "tracelens_rustls_read_enter", "rustls_connection_read", "tracelens_rustls_read_exit"));
                v.push(pair("rustls.o", "tracelens_rustls_write_enter", "rustls_connection_write", "tracelens_rustls_write_exit"));
            }
        },
        TlsProvider::OpenSsl | TlsProvider::BoringSsl | TlsProvider::LibreSsl => {
            return probe_specs(probe);
        },
        _ => {},
    }
    assert(specs_view(v@) =~= provider_specs(provider, probe));
    v
}

/// One probe of a bpftime loader process, as reported to the API.
#[derive(Debug, Clone)]
pub struct BpftimeAttachment {
    pub target: String,
    pub pid: u32,
    pub probe: ProbeKind,
    pub hook: String,
}

/// `provider::build_id::target::pid`: the identity of one loader process.
pub open spec fn provider_key_text(provider: TlsProvider, target: Seq<char>, pid: u32, build_id: Seq<char>) -> Seq<char> {
    provider_label(provider) + "::"@ + build_id + "::"@ + target + "::"@ + crate::text::decimal(pid as nat)
}

pub fn provider_key(provider: TlsProvider, target: &str, pid: u32, build_id: &str) -> (r: String)
    ensures
        r@ == provider_key_text(provider, target@, pid, build_id@),
{
    let mut s = provider.to_string();
    push_str(&mut s, "::");
    push_str(&mut s, build_id);
    push_str(&mut s, "::");
    push_str(&mut s, target);
    push_str(&mut s, "::");
    push_decimal(&mut s, pid as u64);
    s
}

/// `program,function,0|1`: one `--attach` argument of the loader.
pub open spec fn attachment_text(program: Seq<char>, function: Seq<char>, retprobe: bool) -> Seq<char> {
    program + ","@ + function + ","@ + if retprobe {
        "1"@
    } else {
        "0"@
    }
}

pub fn encode_loader_attachment(program: &str, function: &str, retprobe: bool) -> (r: String)
    ensures
        r@ == attachment_text(program@, function@, retprobe),
{
    let mut s = String::new();
    push_str(&mut s, program);
    push_str(&mut s, ",");
    push_str(&mut s, function);
    push_str(&mut s, ",");
    if retprobe {
        push_str(&mut s, "1");
    } else {
        push_str(&mut s, "0");
    }
    proof {
        reveal_strlit("");
    }
    assert(s@ =~= attachment_text(program@, function@, retprobe));
    s
}

/// The number of links a request list creates: one per probe, one more per companion.
pub open spec fn link_total(specs: Seq<ProbeSpec>) -> nat
    decreases specs.len(),
{
    if specs.len() == 0 {
        0
    } else {
        link_total(specs.drop_last()) + if specs.last().companion_program_name is Some {
            2nat
        } else {
            1nat
        }
    }
}

/// The `--attach` arguments of a request list, companions right after their probe.
pub open spec fn attach_args(specs: Seq<ProbeSpec>) -> Seq<Seq<char>>
    decreases specs.len(),
{
    if specs.len() == 0 {
        Seq::empty()
    } else {
        let s = specs.last();
        attach_args(specs.drop_last()) + seq![attachment_text(s.program_name@, s.function_name@, s.retprobe)]
            + match s.companion_program_name {
            Some(c) => seq![attachment_text(c@, s.function_name@, s.companion_retprobe)],
            None => Seq::empty(),
        }
    }
}

pub proof fn lemma_args_count(specs: Seq<ProbeSpec>)
    ensures
        attach_args(specs).len() == link_total(specs),
    decreases specs.len(),
{
    if specs.len() > 0 {
        lemma_args_count(specs.drop_last());
    }
}

/// The loader's `--attach` arguments for a list of probes; their number is
/// the link count the loader will hold.
pub fn loader_attachments(specs: &Vec<ProbeSpec>) -> (r: Vec<String>)
    ensures
        crate::capture::strings_view(r@) == attach_args(specs@),
        r@.len() == link_total(specs@),
{
    let mut out: Vec<String> = Vec::new();
    let mut i: usize = 0;
    while i < specs.len()
        invariant
            i <= specs@.len(),
            crate::capture::strings_view(out@) == attach_args(specs@.take(i as int)),
        decreases specs.len() - i,
    {
        let s = specs[i];
        let ghost before = out@;
        out.push(encode_loader_attachment(s.program_name, s.function_name, s.retprobe));
        match s.companion_program_name {
            Some(c) => {
                out.push(encode_loader_attachment(c, s.function_name, s.companion_retprobe));
            },
            None => {},
        }
        proof {
            assert(specs@.take(i + 1).drop_last() =~= specs@.take(i as int));
            assert(specs@.take(i + 1).last() == s);
            assert(crate::capture::strings_view(out@) =~= attach_args(specs@.take(i + 1)));
        }
        i += 1;
    }
    proof {
        assert(specs@.take(specs@.len() as int) =~= specs@);
        lemma_args_count(specs@);
    }
    out
}


/// A process to hook and the library that holds its TLS functions.
#[derive(Debug, Clone, PartialEq, Eq)]
pub struct UserTarget {
    pub pid: u32,
    pub executable: String,
    pub library: String,
}

/// The mapped file of a `/proc/<pid>/maps` line: its sixth field when that
/// is an absolute path, without a ` (deleted)` suffix.
pub open spec fn map_path_spec(line: Seq<char>) -> Option<Seq<char>> {
    let fields = white_fields(line);
    if fields.len() > 5 && fields[5].len() > 0 && fields[5][0] == '/' {
        let path = fields[5];
        if " (deleted)"@.is_suffix_of(path) {
            Some(path.subrange(0, path.len() - " (deleted)"@.len()))
        } else {
            Some(path)
        }
    } else {
        None
    }
}

pub fn map_path(line: &str) -> (r: Option<String>)
    ensures
        opt_view(r) == map_path_spec(line@),
{
    let v = chars_of(line);
    assert(v@.subrange(0, v@.len() as int) =~= line@);
    let fields = field_ranges(&v, 0, v.len());
    if fields.len() <= 5 {
        return None;
    }
    let (lo, hi) = fields[5];
    if lo == hi || v[lo] != '/' {
        return None;
    }
    let suffix = crate::text::range_ends_with(&v, lo, hi, " (deleted)");
    if suffix {
        let n = chars_of(" (deleted)").len();
        assert(v@.subrange(lo as int, hi - n) =~= v@.subrange(lo as int, hi as int).subrange(0, (hi - lo) - n));
        Some(string_of(&v, lo, hi - n))
    } else {
        Some(string_of(&v, lo, hi))
    }
}

/// A path whose file name names libssl.
pub open spec fn ssl_library_path(path: Seq<char>) -> bool {
    file_name(path) matches Some(n) && has_substring(n, "libssl"@)
}

pub fn is_ssl_library_path(path: &str) -> (r: bool)
    ensures
        r == ssl_library_path(path@),
{
    let v = chars_of(path);
    let mut start = v.len();
    assert(v@.subrange(0, start as int) =~= v@);
    while start > 0 && v[start - 1] != '/'
        invariant
            start <= v@.len(),
            v@ == path@,
            super::provider::name_start(v@) == super::provider::name_start(v@.subrange(0, start as int)),
        decreases start,
    {
        assert(v@.subrange(0, start as int).drop_last() =~= v@.subrange(0, start - 1));
        start -= 1;
    }
    proof {
        if start > 0 {
            assert(v@.subrange(0, start as int).last() == '/');
        }
    }
    if start == v.len() {
        return false;
    }
    crate::text::range_contains(&v, start, v.len(), "libssl")
}

/// The system-wide hook target: the libssl library found for all processes.
pub fn resolve_global_ssl_target(library: Option<String>) -> (r: Result<UserTarget, String>)
    ensures
        match library {
            Some(l) => r matches Ok(t) && t.pid == 0 && t.executable@ == l@ && t.library@ == l@,
            None => r matches Err(e) && e@
                == "no mapped or installed libssl library could be found for global userspace probes"@,
        },
{
    match library {
        Some(l) => Ok(UserTarget { pid: 0, executable: l.clone(), library: l }),
        None => Err("no mapped or installed libssl library could be found for global userspace probes".to_string()),
    }
}

/// The hook target of a process, only once its libssl is mapped: pid 0
/// stands for all processes; otherwise the process's target (as read from
/// `/proc`) with the mapped libssl as its library.
pub fn resolve_user_ssl_target(
    pid: u32,
    target: Result<UserTarget, String>,
    mapped_ssl: Option<String>,
    global_library: Option<String>,
) -> (r: Result<UserTarget, String>)
    ensures
        pid == 0 ==> match global_library {
            Some(l) => r matches Ok(t) && t.pid == 0 && t.executable@ == l@ && t.library@ == l@,
            None => r is Err,
        },
        pid != 0 ==> match (target, mapped_ssl) {
            (Err(e), _) => r == Err::<UserTarget, String>(e),
            (Ok(t), Some(l)) => r matches Ok(u) && u.pid == t.pid && u.executable == t.executable
                && u.library == l,
            (Ok(_), None) => r matches Err(e) && e@ == "libssl is not mapped in process "@
                + crate::text::decimal(pid as nat) + " yet; userspace probes will be retried"@,
        },
{
    if pid == 0 {
        return resolve_global_ssl_target(global_library);
    }
    let mut target = match target {
        Ok(t) => t,
        Err(e) => {
            return Err(e);
        },
    };
    match mapped_ssl {
        Some(l) => {
            target.library = l;
            Ok(target)
        },
        None => {
            let mut e = String::new();
            push_str(&mut e, "libssl is not mapped in process ");
            push_decimal(&mut e, pid as u64);
            push_str(&mut e, " yet; userspace probes will be retried");
            Err(e)
        },
    }
}

} // verus!
