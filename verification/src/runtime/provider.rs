//! Classification of TLS libraries and the hooks each provider offers.
use vstd::prelude::*;
use crate::capture::{strings_view, CaptureModule};
use crate::text::{
    chars_of, has_substring, lower, lower_char, lower_seq, range_contains, range_eq, string_of,
};

verus! {

#[derive(Debug, Clone, Copy, PartialEq, Eq, Hash, Ord, PartialOrd, Structural)]
pub enum TlsProvider {
    OpenSsl,
    BoringSsl,
    LibreSsl,
    GnuTls,
    Nss,
    Rustls,
    GoTls,
    Java,
    Unknown,
}

pub open spec fn provider_label(p: TlsProvider) -> Seq<char> {
    match p {
        TlsProvider::OpenSsl => "OpenSSL"@,
        TlsProvider::BoringSsl => "BoringSSL"@,
        TlsProvider::LibreSsl => "LibreSSL"@,
        TlsProvider::GnuTls => "GnuTLS"@,
        TlsProvider::Nss => "NSS"@,
        TlsProvider::Rustls => "rustls"@,
        TlsProvider::GoTls => "Go crypto/tls"@,
        TlsProvider::Java => "Java JSSE"@,
        TlsProvider::Unknown => "Unknown"@,
    }
}

impl TlsProvider {
    pub fn to_string(&self) -> (r: String)
        ensures
            r@ == provider_label(*self),
    {
        let s: &'static str = match self {
            TlsProvider::OpenSsl => "OpenSSL",
            TlsProvider::BoringSsl => "BoringSSL",
            TlsProvider::LibreSsl => "LibreSSL",
            TlsProvider::GnuTls => "GnuTLS",
            TlsProvider::Nss => "NSS",
            TlsProvider::Rustls => "rustls",
            TlsProvider::GoTls => "Go crypto/tls",
            TlsProvider::Java => "Java JSSE",
            TlsProvider::Unknown => "Unknown",
        };
        s.to_owned()
    }
}

/// Where the last path component of `p` starts: after its last `/`.
pub open spec fn name_start(p: Seq<char>) -> int
    decreases p.len(),
{
    if p.len() == 0 {
        0
    } else if p.last() == '/' {
        p.len() as int
    } else {
        name_start(p.drop_last())
    }
}

/// The last `/`-separated component of a path, when it is not empty.
pub open spec fn file_name(p: Seq<char>) -> Option<Seq<char>> {
    if name_start(p) == p.len() {
        None
    } else {
        Some(p.subrange(name_start(p), p.len() as int))
    }
}

proof fn lemma_name_start(p: Seq<char>)
    ensures
        0 <= name_start(p) <= p.len(),
        name_start(p) > 0 ==> p[name_start(p) - 1] == '/',
        forall|i: int| name_start(p) <= i < p.len() ==> p[i] != '/',
    decreases p.len(),
{
    if p.len() > 0 && p.last() != '/' {
        lemma_name_start(p.drop_last());
        assert forall|i: int| 0 <= i < p.len() - 1 implies p.drop_last()[i] == p[i] by {}
    }
}

/// Where the last component of `v[..]` starts.
fn name_start_of(v: &Vec<char>) -> (r: usize)
    ensures
        r == name_start(v@),
        r <= v@.len(),
{
    proof {
        lemma_name_start(v@);
    }
    let mut i = v.len();
    assert(v@.subrange(0, i as int) =~= v@);
    while i > 0 && v[i - 1] != '/'
        invariant
            i <= v@.len(),
            name_start(v@) == name_start(v@.subrange(0, i as int)),
            forall|j: int| i <= j < v@.len() ==> v@[j] != '/',
        decreases i,
    {
        assert(v@.subrange(0, i as int).drop_last() =~= v@.subrange(0, i - 1));
        i -= 1;
    }
    proof {
        if i > 0 {
            assert(v@.subrange(0, i as int).last() == '/');
        }
    }
    i
}

/// The symbol list holds `name`.
pub open spec fn has_symbol(symbols: Seq<String>, name: Seq<char>) -> bool {
    exists|i: int| 0 <= i < symbols.len() && (#[trigger] symbols[i])@ == name
}

/// Some symbol has `part` in it.
pub open spec fn symbol_with(symbols: Seq<String>, part: Seq<char>) -> bool {
    exists|i: int| 0 <= i < symbols.len() && has_substring((#[trigger] symbols[i])@, part)
}

/// The provider a library is, judged by its symbols first and its file name second.
pub open spec fn classify_spec(path: Seq<char>, symbols: Seq<String>) -> Option<TlsProvider> {
    match file_name(path) {
        None => None,
        Some(raw) => {
            let name = lower_seq(raw);
            if has_symbol(symbols, "gnutls_record_recv"@) || has_substring(name, "gnutls"@) {
                Some(TlsProvider::GnuTls)
            } else if has_symbol(symbols, "SSL_ImportFD"@) || name == "libssl3.so"@ {
                Some(TlsProvider::Nss)
            } else if has_symbol(symbols, "rustls_connection_read"@) || has_substring(name, "rustls"@) {
                Some(TlsProvider::Rustls)
            } else if name == "libjvm.so"@ {
                Some(TlsProvider::Java)
            } else if has_symbol(symbols, "SSL_read"@) || has_substring(name, "libssl"@) {
                if symbol_with(symbols, "BORINGSSL"@) {
                    Some(TlsProvider::BoringSsl)
                } else if symbol_with(symbols, "LIBRESSL"@) {
                    Some(TlsProvider::LibreSsl)
                } else {
                    Some(TlsProvider::OpenSsl)
                }
            } else {
                None
            }
        },
    }
}

fn symbol_present(symbols: &[String], name: &str) -> (r: bool)
    ensures
        r == has_symbol(symbols@, name@),
{
    let wanted = name.to_owned();
    let mut i: usize = 0;
    while i < symbols.len()
        invariant
            i <= symbols@.len(),
            wanted@ == name@,
            forall|j: int| 0 <= j < i ==> (#[trigger] symbols@[j])@ != name@,
        decreases symbols.len() - i,
    {
        if symbols[i] == wanted {
            return true;
        }
        i += 1;
    }
    false
}

fn symbol_containing(symbols: &[String], part: &str) -> (r: bool)
    ensures
        r == symbol_with(symbols@, part@),
{
    let mut i: usize = 0;
    while i < symbols.len()
        invariant
            i <= symbols@.len(),
            forall|j: int| 0 <= j < i ==> !has_substring((#[trigger] symbols@[j])@, part@),
        decreases symbols.len() - i,
    {
        let v = chars_of(symbols[i].as_str());
        assert(v@.subrange(0, v@.len() as int) =~= v@);
        if range_contains(&v, 0, v.len(), part) {
            return true;
        }
        i += 1;
    }
    false
}

/// The lower-cased file name of a path, if it has one.
fn lower_name(path: &str) -> (r: Option<Vec<char>>)
    ensures
        match file_name(path@) {
            Some(n) => r matches Some(v) && v@ == lower_seq(n),
            None => r is None,
        },
{
    let p = chars_of(path);
    let start = name_start_of(&p);
    if start == p.len() {
        return None;
    }
    let mut out: Vec<char> = Vec::new();
    let mut i = start;
    while i < p.len()
        invariant
            start <= i <= p@.len(),
            out@ == lower_seq(p@.subrange(start as int, i as int)),
        decreases p@.len() - i,
    {
        out.push(lower(p[i]));
        assert(lower_seq(p@.subrange(start as int, i + 1)) =~= lower_seq(p@.subrange(start as int, i as int)).push(
            lower_char(p@[i as int]),
        ));
        i += 1;
    }
    Some(out)
}

/// The provider of a library from its path and its defined dynamic symbols.
pub fn classify_provider(path: &str, symbols: &[String]) -> (r: Option<TlsProvider>)
    ensures
        r == classify_spec(path@, symbols@),
{
    let name = match lower_name(path) {
        Some(n) => n,
        None => {
            return None;
        },
    };
    let n = name.len();
    assert(name@.subrange(0, n as int) =~= name@);
    if symbol_present(symbols, "gnutls_record_recv") || range_contains(&name, 0, n, "gnutls") {
        return Some(TlsProvider::GnuTls);
    }
    if symbol_present(symbols, "SSL_ImportFD") || range_eq(&name, 0, n, "libssl3.so") {
        return Some(TlsProvider::Nss);
    }
    if symbol_present(symbols, "rustls_connection_read") || range_contains(&name, 0, n, "rustls") {
        return Some(TlsProvider::Rustls);
    }
    if range_eq(&name, 0, n, "libjvm.so") {
        return Some(TlsProvider::Java);
    }
    if symbol_present(symbols, "SSL_read") || range_contains(&name, 0, n, "libssl") {
        if symbol_containing(symbols, "BORINGSSL") {
            return Some(TlsProvider::BoringSsl);
        }
        if symbol_containing(symbols, "LIBRESSL") {
            return Some(TlsProvider::LibreSsl);
        }
        return Some(TlsProvider::OpenSsl);
    }
    None
}

/// Whether a file name suggests a TLS library worth inspecting.
pub open spec fn tls_library_name(path: Seq<char>) -> bool {
    match file_name(path) {
        None => false,
        Some(raw) => {
            let name = lower_seq(raw);
            has_substring(name, "libssl"@) || has_substring(name, "gnutls"@) || has_substring(
                name,
                "nss"@,
            ) || has_substring(name, "rustls"@) || name == "libjvm.so"@
        },
    }
}

pub fn looks_like_tls_library(path: &str) -> (r: bool)
    ensures
        r == tls_library_name(path@),
{
    let name = match lower_name(path) {
        Some(n) => n,
        None => {
            return false;
        },
    };
    let n = name.len();
    assert(name@.subrange(0, n as int) =~= name@);
    range_contains(&name, 0, n, "libssl") || range_contains(&name, 0, n, "gnutls") || range_contains(
        &name,
        0,
        n,
        "nss",
    ) || range_contains(&name, 0, n, "rustls") || range_eq(&name, 0, n, "libjvm.so")
}

/// The library functions TraceLens can hook for each provider.
pub open spec fn hooks_spec(p: TlsProvider) -> Seq<Seq<char>> {
    match p {
        TlsProvider::OpenSsl | TlsProvider::BoringSsl | TlsProvider::LibreSsl => seq![
            "SSL_connect"@,
            "SSL_get_servername"@,
            "SSL_get_version"@,
            "SSL_get_fd"@,
            "SSL_set_fd"@,
            "SSL_read"@,
            "SSL_write"@,
            "SSL_read_ex"@,
            "SSL_write_ex"@,
        ],
        TlsProvider::GnuTls => seq![
            "gnutls_handshake"@,
            "gnutls_transport_set_int2"@,
            "gnutls_server_name_set"@,
            "gnutls_protocol_get_version"@,
            "gnutls_record_recv"@,
            "gnutls_record_send"@,
        ],
        TlsProvider::Nss => seq![
            "SSL_ImportFD"@,
            "SSL_SetURL"@,
            "SSL_GetChannelInfo"@,
            "PR_Read"@,
            "PR_Write"@,
            "PR_Close"@,
        ],
        TlsProvider::Rustls => seq![
            "rustls_connection_process_new_packets"@,
            "rustls_connection_read"@,
            "rustls_connection_write"@,
        ],
        _ => Seq::empty(),
    }
}

pub open spec fn strs_view(v: Seq<&'static str>) -> Seq<Seq<char>> {
    v.map_values(|s: &'static str| s@)
}

pub fn provider_hooks(provider: TlsProvider) -> (r: Vec<&'static str>)
    ensures
        strs_view(r@) == hooks_spec(provider),
{
    let mut v: Vec<&'static str> = Vec::new();
    match provider {
        TlsProvider::OpenSsl | TlsProvider::BoringSsl | TlsProvider::LibreSsl => {
            v.push("SSL_connect");
            v.push("SSL_get_servername");
            v.push("SSL_get_version");
            v.push("SSL_get_fd");
            v.push("SSL_set_fd");
            v.push("SSL_read");
            v.push("SSL_write");
            v.push("SSL_read_ex");
            v.push("SSL_write_ex");
        },
        TlsProvider::GnuTls => {
            v.push("gnutls_handshake");
            v.push("gnutls_transport_set_int2");
            v.push("gnutls_server_name_set");
            v.push("gnutls_protocol_get_version");
            v.push("gnutls_record_recv");
            v.push("gnutls_record_send");
        },
        TlsProvider::Nss => {
            v.push("SSL_ImportFD");
            v.push("SSL_SetURL");
            v.push("SSL_GetChannelInfo");
            v.push("PR_Read");
            v.push("PR_Write");
            v.push("PR_Close");
        },
        TlsProvider::Rustls => {
            v.push("rustls_connection_process_new_packets");
            v.push("rustls_connection_read");
            v.push("rustls_connection_write");
        },
        _ => {},
    }
    assert(strs_view(v@) =~= hooks_spec(provider));
    v
}

/// `libnspr4.so` in the directory of the NSS library.
pub open spec fn nspr_sibling(nss_library: Seq<char>) -> Seq<char> {
    nss_library.subrange(0, name_start(nss_library)) + "libnspr4.so"@
}

/// The NSPR library NSS uses: the sibling of the NSS library when it exists
/// on disk (`sibling_exists`) or is among the mapped libraries, else the
/// first mapped library named `libnspr4.so`.
pub open spec fn nspr_choice(nss_library: Seq<char>, sibling_exists: bool, available: Seq<String>) -> Option<
    Seq<char>,
> {
    let sibling = nspr_sibling(nss_library);
    if sibling_exists || has_symbol(available, sibling) {
        Some(sibling)
    } else {
        first_nspr(available)
    }
}

pub open spec fn first_nspr(available: Seq<String>) -> Option<Seq<char>>
    decreases available.len(),
{
    if available.len() == 0 {
        None
    } else if file_name(available[0]@) == Some("libnspr4.so"@) {
        Some(available[0]@)
    } else {
        first_nspr(available.drop_first())
    }
}

pub fn select_nss_nspr(nss_library: &str, sibling_exists: bool, available: &[String]) -> (r: Option<String>)
    ensures
        match nspr_choice(nss_library@, sibling_exists, available@) {
            Some(p) => r matches Some(s) && s@ == p,
            None => r is None,
        },
{
    let p = chars_of(nss_library);
    let start = name_start_of(&p);
    let mut sibling = string_of(&p, 0, start);
    crate::text::push_str(&mut sibling, "libnspr4.so");
    assert(sibling@ == nspr_sibling(nss_library@));
    if sibling_exists || symbol_present(available, sibling.as_str()) {
        return Some(sibling);
    }
    nspr_among(available)
}

/// The first of the libraries whose file is `libnspr4.so`.
pub(crate) fn nspr_among(available: &[String]) -> (r: Option<String>)
    ensures
        opt_view(r) == first_nspr(available@),
{
    let mut i: usize = 0;
    let ghost all = available@;
    assert(all.subrange(0, all.len() as int) =~= all);
    while i < available.len()
        invariant
            i <= all.len(),
            all == available@,
            first_nspr(all) == first_nspr(all.subrange(i as int, all.len() as int)),
        decreases all.len() - i,
    {
        assert(all.subrange(i as int, all.len() as int).drop_first() =~= all.subrange(i + 1, all.len() as int));
        let v = chars_of(available[i].as_str());
        let s = name_start_of(&v);
        let named = s < v.len() && range_eq(&v, s, v.len(), "libnspr4.so");
        assert(all.subrange(i as int, all.len() as int)[0] == all[i as int]);
        assert(v@.subrange(s as int, v@.len() as int) =~= v@.subrange(name_start(v@), v@.len() as int));
        assert(v@ == all[i as int]@);
        if named {
            assert(file_name(all[i as int]@) == Some("libnspr4.so"@));
            assert(first_nspr(all.subrange(i as int, all.len() as int)) == Some(all[i as int]@));
            let found = available[i].clone();
            assert(found@ == all[i as int]@);
            return Some(found);
        }
        assert(file_name(all[i as int]@) != Some("libnspr4.so"@));
        i += 1;
    }
    assert(all.subrange(i as int, all.len() as int) =~= Seq::<String>::empty());
    None
}


/// Parts joined by a separator.
pub open spec fn joined_by(parts: Seq<Seq<char>>, sep: Seq<char>) -> Seq<char>
    decreases parts.len(),
{
    if parts.len() == 0 {
        Seq::empty()
    } else if parts.len() == 1 {
        parts[0]
    } else {
        joined_by(parts.drop_last(), sep) + sep + parts.last()
    }
}

/// The names of `required` that the symbol list lacks, in order.
pub open spec fn missing_symbols(required: Seq<Seq<char>>, symbols: Seq<String>) -> Seq<Seq<char>> {
    required.filter(lacking(symbols))
}

/// Names the symbol list does not define.
pub open spec fn lacking(symbols: Seq<String>) -> spec_fn(Seq<char>) -> bool {
    |name: Seq<char>| !has_symbol(symbols, name)
}

/// The functions a provider cannot be hooked without.
pub open spec fn required_symbols(p: TlsProvider) -> Seq<Seq<char>> {
    match p {
        TlsProvider::OpenSsl | TlsProvider::BoringSsl | TlsProvider::LibreSsl => seq!["SSL_read"@, "SSL_write"@],
        TlsProvider::GnuTls => seq!["gnutls_record_recv"@, "gnutls_record_send"@],
        TlsProvider::Rustls => seq![
            "rustls_connection_process_new_packets"@,
            "rustls_connection_read"@,
            "rustls_connection_write"@,
        ],
        _ => Seq::empty(),
    }
}

/// The NSS hooks in byte order.
pub open spec fn nss_hooks_sorted() -> Seq<Seq<char>> {
    seq!["PR_Close"@, "PR_Read"@, "PR_Write"@, "SSL_GetChannelInfo"@, "SSL_ImportFD"@, "SSL_SetURL"@]
}

/// Whether a provider can be instrumented with the given symbols, and why not.
pub open spec fn support_spec(
    p: TlsProvider,
    symbols: Seq<String>,
    nss_nspr: Option<Seq<char>>,
    nspr_symbols: Seq<String>,
) -> (bool, Option<Seq<char>>) {
    match p {
        TlsProvider::OpenSsl | TlsProvider::BoringSsl | TlsProvider::LibreSsl | TlsProvider::GnuTls => {
            let missing = missing_symbols(required_symbols(p), symbols);
            (
                missing.len() == 0,
                if missing.len() == 0 {
                    None
                } else {
                    Some("missing symbols: "@ + joined_by(missing, ", "@))
                },
            )
        },
        TlsProvider::Nss => {
            let ok = has_symbol(symbols, "SSL_ImportFD"@) && has_symbol(nspr_symbols, "PR_Read"@)
                && has_symbol(nspr_symbols, "PR_Write"@) && nss_nspr is Some;
            (
                ok,
                if ok {
                    None
                } else {
                    Some("NSS requires SSL_ImportFD plus PR_Read/PR_Write from libnspr4.so"@)
                },
            )
        },
        TlsProvider::Rustls => {
            let missing = missing_symbols(required_symbols(p), symbols);
            (
                missing.len() == 0,
                if missing.len() == 0 {
                    None
                } else {
                    Some(
                        "native/static rustls has no stable C ABI; rustls-ffi missing symbols: "@
                            + joined_by(missing, ", "@),
                    )
                },
            )
        },
        _ => (false, Some(provider_label(p) + " instrumentation is not implemented"@)),
    }
}

/// The hooks of a provider that the library (or, for NSS, its NSPR library)
/// defines; for NSS in byte order.
pub open spec fn exposed_spec(
    p: TlsProvider,
    symbols: Seq<String>,
    nss_nspr: Option<Seq<char>>,
    nspr_symbols: Seq<String>,
) -> Seq<Seq<char>> {
    if p == TlsProvider::Nss {
        nss_hooks_sorted().filter(listed_in(symbols, nss_nspr is Some, nspr_symbols))
    } else {
        hooks_spec(p).filter(listed_in(symbols, false, nspr_symbols))
    }
}

/// Names the symbol list defines, or (where `extra` holds) the extra list.
pub open spec fn listed_in(symbols: Seq<String>, extra: bool, extra_symbols: Seq<String>) -> spec_fn(Seq<char>) -> bool {
    |h: Seq<char>| has_symbol(symbols, h) || (extra && has_symbol(extra_symbols, h))
}

/// What TraceLens can do with one TLS library.
#[derive(Debug, Clone, PartialEq, Eq)]
pub struct TlsCapability {
    pub provider: TlsProvider,
    pub library: String,
    pub build_id: String,
    pub version_hint: Option<String>,
    pub auxiliary_libraries: Vec<String>,
    pub modules: Vec<CaptureModule>,
    pub symbols: Vec<String>,
    pub supported: bool,
    pub reason: Option<String>,
}

/// `names` filtered to those the symbol lists define.
fn present_names(
    names: Vec<&'static str>,
    symbols: &[String],
    extra: bool,
    extra_symbols: &[String],
) -> (r: Vec<String>)
    ensures
        strings_view(r@) == strs_view(names@).filter(listed_in(symbols@, extra, extra_symbols@)),
{
    let ghost pred = listed_in(symbols@, extra, extra_symbols@);
    let ghost nv = strs_view(names@);
    let mut r: Vec<String> = Vec::new();
    let mut i: usize = 0;
    assert(nv.take(0).filter(pred) =~= Seq::<Seq<char>>::empty()) by {
        reveal(Seq::filter);
    }
    while i < names.len()
        invariant
            i <= names@.len(),
            nv == strs_view(names@),
            pred == listed_in(symbols@, extra, extra_symbols@),
            strings_view(r@) == nv.take(i as int).filter(pred),
        decreases names.len() - i,
    {
        let name = names[i];
        assert(nv.take(i + 1) =~= nv.take(i as int).push(name@));
        proof {
            nv.take(i as int).lemma_filter_push(name@, pred);
        }
        assert(pred(name@) == (has_symbol(symbols@, name@) || (extra && has_symbol(extra_symbols@, name@))));
        if symbol_present(symbols, name) || (extra && symbol_present(extra_symbols, name)) {
            let ghost before = r@;
            r.push(name.to_string());
            assert(strings_view(r@) =~= strings_view(before).push(name@));
        }
        i += 1;
    }
    assert(nv.take(i as int) =~= nv);
    r
}

/// `parts` joined by `, `.
fn comma_joined(parts: &Vec<String>) -> (r: String)
    ensures
        r@ == joined_by(strings_view(parts@), ", "@),
{
    let mut s = String::new();
    let mut i: usize = 0;
    while i < parts.len()
        invariant
            i <= parts@.len(),
            s@ == joined_by(strings_view(parts@.take(i as int)), ", "@),
        decreases parts.len() - i,
    {
        let ghost before = strings_view(parts@.take(i as int));
        if i > 0 {
            crate::text::push_str(&mut s, ", ");
        }
        crate::text::push_str(&mut s, parts[i].as_str());
        proof {
            let after = strings_view(parts@.take(i + 1));
            assert(after.drop_last() =~= before);
            assert(after.last() == parts@[i as int]@);
            if i == 0 {
                assert(s@ =~= after[0]);
            }
        }
        i += 1;
    }
    assert(parts@.take(i as int) =~= parts@);
    s
}

/// The capability of a TLS library, from what was read of it: its
/// provider, its defined dynamic symbols and build id, and for NSS the
/// NSPR library found beside it with that library's symbols.
pub fn tls_capability(
    path: &str,
    provider: TlsProvider,
    symbols: &[String],
    build_id: String,
    nss_nspr: Option<String>,
    nspr_symbols: &[String],
) -> (r: TlsCapability)
    ensures
        r.provider == provider,
        r.library@ == path@,
        r.build_id == build_id,
        opt_view(r.version_hint) == file_name(path@),
        strings_view(r.auxiliary_libraries@) == match nss_nspr {
            Some(n) => seq![n@],
            None => Seq::<Seq<char>>::empty(),
        },
        r.supported == support_spec(provider, symbols@, opt_view(nss_nspr), nspr_symbols@).0,
        opt_view(r.reason) == support_spec(provider, symbols@, opt_view(nss_nspr), nspr_symbols@).1,
        r.modules@ == if r.supported {
            seq![CaptureModule::Tls, CaptureModule::Http, CaptureModule::Plaintext]
        } else {
            Seq::<CaptureModule>::empty()
        },
        strings_view(r.symbols@) == exposed_spec(provider, symbols@, opt_view(nss_nspr), nspr_symbols@),
{
    let (supported, reason) = match provider {
        TlsProvider::OpenSsl | TlsProvider::BoringSsl | TlsProvider::LibreSsl | TlsProvider::GnuTls
        | TlsProvider::Rustls => {
            let required: Vec<&'static str> = match provider {
                TlsProvider::GnuTls => vec!["gnutls_record_recv", "gnutls_record_send"],
                TlsProvider::Rustls => vec![
                    "rustls_connection_process_new_packets",
                    "rustls_connection_read",
                    "rustls_connection_write",
                ],
                _ => vec!["SSL_read", "SSL_write"],
            };
            assert(strs_view(required@) =~= required_symbols(provider));
            let missing = missing_names(required, symbols);
            if missing.len() == 0 {
                (true, None)
            } else {
                let mut text = String::new();
                if provider == TlsProvider::Rustls {
                    crate::text::push_str(
                        &mut text,
                        "native/static rustls has no stable C ABI; rustls-ffi missing symbols: ",
                    );
                } else {
                    crate::text::push_str(&mut text, "missing symbols: ");
                }
                let list = comma_joined(&missing);
                crate::text::push_str(&mut text, list.as_str());
                (false, Some(text))
            }
        },
        TlsProvider::Nss => {
            let ok = symbol_present(symbols, "SSL_ImportFD") && symbol_present(nspr_symbols, "PR_Read")
                && symbol_present(nspr_symbols, "PR_Write") && nss_nspr.is_some();
            if ok {
                (true, None)
            } else {
                (false, Some("NSS requires SSL_ImportFD plus PR_Read/PR_Write from libnspr4.so".to_string()))
            }
        },
        _ => {
            let mut text = provider.to_string();
            crate::text::push_str(&mut text, " instrumentation is not implemented");
            (false, Some(text))
        },
    };
    let modules = if supported {
        vec![CaptureModule::Tls, CaptureModule::Http, CaptureModule::Plaintext]
    } else {
        Vec::new()
    };
    let exposed = if provider == TlsProvider::Nss {
        let sorted = vec!["PR_Close", "PR_Read", "PR_Write", "SSL_GetChannelInfo", "SSL_ImportFD", "SSL_SetURL"];
        assert(strs_view(sorted@) =~= nss_hooks_sorted());
        present_names(sorted, symbols, nss_nspr.is_some(), nspr_symbols)
    } else {
        let hooks = provider_hooks(provider);
        present_names(hooks, symbols, false, nspr_symbols)
    };
    let auxiliary_libraries = match &nss_nspr {
        Some(n) => vec![n.clone()],
        None => Vec::new(),
    };
    assert(strings_view(auxiliary_libraries@) =~= match nss_nspr {
        Some(n) => seq![n@],
        None => Seq::<Seq<char>>::empty(),
    });
    TlsCapability {
        provider,
        library: path.to_string(),
        build_id,
        version_hint: file_name_of(path),
        auxiliary_libraries,
        modules,
        symbols: exposed,
        supported,
        reason,
    }
}

pub open spec fn opt_view(s: Option<String>) -> Option<Seq<char>> {
    match s {
        Some(t) => Some(t@),
        None => None,
    }
}

/// The names of `required` that the symbol list lacks, in order.
fn missing_names(required: Vec<&'static str>, symbols: &[String]) -> (r: Vec<String>)
    ensures
        strings_view(r@) == missing_symbols(strs_view(required@), symbols@),
{
    let ghost pred = lacking(symbols@);
    let ghost nv = strs_view(required@);
    let mut r: Vec<String> = Vec::new();
    let mut i: usize = 0;
    assert(nv.take(0).filter(pred) =~= Seq::<Seq<char>>::empty()) by {
        reveal(Seq::filter);
    }
    while i < required.len()
        invariant
            i <= required@.len(),
            nv == strs_view(required@),
            pred == lacking(symbols@),
            strings_view(r@) == nv.take(i as int).filter(pred),
        decreases required.len() - i,
    {
        let name = required[i];
        assert(nv.take(i + 1) =~= nv.take(i as int).push(name@));
        proof {
            nv.take(i as int).lemma_filter_push(name@, pred);
        }
        assert(pred(name@) == !has_symbol(symbols@, name@));
        if !symbol_present(symbols, name) {
            let ghost before = r@;
            r.push(name.to_string());
            assert(strings_view(r@) =~= strings_view(before).push(name@));
        }
        i += 1;
    }
    assert(nv.take(i as int) =~= nv);
    r
}

/// The last component of a path, when it is not empty.
fn file_name_of(path: &str) -> (r: Option<String>)
    ensures
        opt_view(r) == file_name(path@),
{
    let v = chars_of(path);
    let start = name_start_of(&v);
    if start == v.len() {
        None
    } else {
        Some(string_of(&v, start, v.len()))
    }
}

} // verus!
