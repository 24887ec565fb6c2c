//! Host-key and certificate trust stores (trust on first use).
//!
//! - SSH: a `known_hosts`-style text file, one record per line:
//!   `host:port algo key_b64`.
//! - RDP: a map from `host:port` to the SHA-256 thumbprint (lowercase hex)
//!   of the server certificate.
//!
//! An unknown host is for the caller to decide on (the UI prompts); on
//! confirmation it calls [`SshKnownHosts::trust_on_first_use`] or
//! [`RdpPinStore::pin`]. A mismatch is a hard failure.
//!
//! Reading and writing the files is left to the caller: the SSH store takes
//! the file's text (`None` when there is no file) and hands back the text to
//! write.

use vstd::prelude::*;
use crate::encoding::{base64_encode, base64_text, hex_encode, hex_lower, lemma_hex_lower_injective, sha256, sha256_of};
use crate::errors::{err_of, AppError, AppResult, ErrorView};
use crate::keyed::{entries_sorted, entry_find, entry_insert, entry_remove, lookup};
use crate::text::{chars_of, decimal, decimal_chars, int_error_message, int_error_text, is_white, lemma_split_nl_append, lemma_split_nl_nonempty, parse_u16, parse_u16_spec, split_first, split_first_chars, split_last, split_last_chars, split_nl, string_of, trim, trim_chars};

verus! {

/// What a trust store says about a presented key or certificate.
#[derive(Debug, Clone, Copy, PartialEq, Eq, Structural)]
pub enum TrustOutcome {
    Trusted,
    Unknown,
    Mismatch,
}

/// One recorded SSH host key.
#[derive(Debug, PartialEq, Eq)]
pub struct KnownSshHost {
    pub host: String,
    pub port: u16,
    /// Algorithm (e.g. `ssh-ed25519`).
    pub algo: String,
    /// Base64-encoded public key blob.
    pub key_b64: String,
}

impl Clone for KnownSshHost {
    fn clone(&self) -> (r: Self)
        ensures
            r == *self,
    {
        KnownSshHost {
            host: self.host.clone(),
            port: self.port,
            algo: self.algo.clone(),
            key_b64: self.key_b64.clone(),
        }
    }
}

impl View for KnownSshHost {
    type V = (Seq<char>, u16, Seq<char>, Seq<char>);

    open spec fn view(&self) -> (Seq<char>, u16, Seq<char>, Seq<char>) {
        (self.host@, self.port, self.algo@, self.key_b64@)
    }
}

/// The views of a list of records.
pub open spec fn hosts_view(hs: Seq<KnownSshHost>) -> Seq<(Seq<char>, u16, Seq<char>, Seq<char>)> {
    Seq::new(hs.len(), |i: int| hs[i]@)
}

/// How `host:port` text reads: the host is everything before the last
/// `:`, the port what follows it, parsed as a `u16`. Errors carry the
/// storage message.
pub open spec fn host_port_spec(s: Seq<char>) -> Result<(Seq<char>, u16), Seq<char>> {
    match split_last(s, ':') {
        None => Err("bad host:port "@ + s),
        Some((h, p)) => match parse_u16_spec(p) {
            Ok(n) => Ok((h, n)),
            Err(e) => Err("bad port "@ + p + ": "@ + int_error_text(e)),
        },
    }
}

/// How one line of the file reads.
pub enum LineParse {
    /// An empty line or a comment.
    Skip,
    /// A record.
    Host((Seq<char>, u16, Seq<char>, Seq<char>)),
    /// A malformed line, with the storage message.
    Bad(Seq<char>),
}

/// The message for a malformed line `n` (counting from 1).
pub open spec fn line_message(n: nat, what: Seq<char>) -> Seq<char> {
    "known_hosts:"@ + decimal(n) + what
}

/// How the trimmed line number `n` reads: empty lines and lines starting
/// with `#` are skipped; otherwise the line is cut at its first two spaces
/// into `host:port`, the algorithm and the key.
pub open spec fn parse_line_spec(line: Seq<char>, n: nat) -> LineParse {
    if line.len() == 0 || line[0] == '#' {
        LineParse::Skip
    } else {
        match split_first(line, ' ') {
            None => LineParse::Bad(line_message(n, ": no algo"@)),
            Some((hp, rest)) => match split_first(rest, ' ') {
                None => LineParse::Bad(line_message(n, ": no key"@)),
                Some((algo, key)) => match host_port_spec(hp) {
                    Err(m) => LineParse::Bad(m),
                    Ok((h, p)) => LineParse::Host((h, p, algo, key)),
                },
            },
        }
    }
}

/// How a sequence of lines reads: the records in order, or the message of
/// the first malformed line.
pub open spec fn parse_lines(lines: Seq<Seq<char>>) -> Result<
    Seq<(Seq<char>, u16, Seq<char>, Seq<char>)>,
    Seq<char>,
>
    decreases lines.len(),
{
    if lines.len() == 0 {
        Ok(Seq::empty())
    } else {
        match parse_lines(lines.drop_last()) {
            Err(m) => Err(m),
            Ok(hs) => match parse_line_spec(trim(lines.last()), lines.len()) {
                LineParse::Skip => Ok(hs),
                LineParse::Host(h) => Ok(hs.push(h)),
                LineParse::Bad(m) => Err(m),
            },
        }
    }
}

/// How the text of a `known_hosts` file reads.
pub open spec fn known_hosts_spec(text: Seq<char>) -> Result<
    Seq<(Seq<char>, u16, Seq<char>, Seq<char>)>,
    Seq<char>,
> {
    parse_lines(split_nl(text))
}

/// Once some lines fail to read, more lines fail the same way.
pub proof fn lemma_parse_lines_err_extends(a: Seq<Seq<char>>, b: Seq<Seq<char>>)
    requires
        parse_lines(a) is Err,
    ensures
        parse_lines(a + b) == parse_lines(a),
    decreases b.len(),
{
    if b.len() == 0 {
        assert(a + b =~= a);
    } else {
        lemma_parse_lines_err_extends(a, b.drop_last());
        assert((a + b).drop_last() =~= a + b.drop_last());
    }
}

/// Reads `host:port`.
pub fn parse_host_port(s: &str) -> (res: AppResult<(String, u16)>)
    ensures
        match host_port_spec(s@) {
            Ok((h, p)) => res matches Ok((h2, p2)) && h2@ == h && p2 == p,
            Err(m) => err_of(res) == Some(ErrorView::Storage(m)),
        },
{
    let cs = chars_of(s);
    match split_last_chars(&cs, ':') {
        None => {
            let mut m = String::from_str("bad host:port ");
            m.append(s);
            Err(AppError::Storage(m))
        },
        Some((h, p)) => match parse_u16(&p) {
            Ok(n) => Ok((string_of(&h), n)),
            Err(e) => {
                let mut m = String::from_str("bad port ");
                let ps = string_of(&p);
                m.append(ps.as_str());
                m.append(": ");
                m.append(int_error_message(e));
                Err(AppError::Storage(m))
            },
        },
    }
}

/// The message for malformed line `n`.
fn line_error(n: usize, what: &str) -> (res: String)
    ensures
        res@ == line_message(n as nat, what@),
{
    let mut m = String::from_str("known_hosts:");
    let d = string_of(&decimal_chars(n as u64));
    m.append(d.as_str());
    m.append(what);
    m
}

/// Reads one trimmed line, number `n`: `None` for a skipped line.
fn parse_line(line: &Vec<char>, n: usize) -> (res: Option<AppResult<KnownSshHost>>)
    ensures
        match parse_line_spec(line@, n as nat) {
            LineParse::Skip => res is None,
            LineParse::Host(h) => res matches Some(Ok(k)) && k@ == h,
            LineParse::Bad(m) => res matches Some(Err(e)) && e@ == ErrorView::Storage(m),
        },
{
    if line.len() == 0 || line[0] == '#' {
        return None;
    }
    let (hp, rest) = match split_first_chars(line, ' ') {
        None => {
            proof { reveal_strlit(": no algo"); }
            return Some(Err(AppError::Storage(line_error(n, ": no algo"))));
        },
        Some(parts) => parts,
    };
    let (algo, key) = match split_first_chars(&rest, ' ') {
        None => {
            proof { reveal_strlit(": no key"); }
            return Some(Err(AppError::Storage(line_error(n, ": no key"))));
        },
        Some(parts) => parts,
    };
    let hps = string_of(&hp);
    match parse_host_port(hps.as_str()) {
        Err(e) => Some(Err(e)),
        Ok((host, port)) => Some(Ok(KnownSshHost { host, port, algo: string_of(&algo), key_b64: string_of(&key) })),
    }
}

/// Reads the text of a `known_hosts` file.
pub fn parse_known_hosts(text: &str) -> (res: AppResult<Vec<KnownSshHost>>)
    ensures
        match known_hosts_spec(text@) {
            Ok(hs) => res matches Ok(v) && hosts_view(v@) == hs,
            Err(m) => err_of(res) == Some(ErrorView::Storage(m)),
        },
{
    let cs = chars_of(text);
    let mut out: Vec<KnownSshHost> = Vec::new();
    let mut cur: Vec<char> = Vec::new();
    let mut li: usize = 0;
    let mut i: usize = 0;
    assert(cs@.take(0) =~= Seq::<char>::empty());
    assert(split_nl(cs@.take(0)).drop_last() =~= Seq::<Seq<char>>::empty());
    assert(hosts_view(out@) =~= Seq::<(Seq<char>, u16, Seq<char>, Seq<char>)>::empty());
    while i < cs.len()
        invariant
            i <= cs@.len(),
            cs@ == text@,
            split_nl(cs@.take(i as int)).len() == li + 1,
            split_nl(cs@.take(i as int)).last() == cur@,
            parse_lines(split_nl(cs@.take(i as int)).drop_last()) == Ok::<
                Seq<(Seq<char>, u16, Seq<char>, Seq<char>)>,
                Seq<char>,
            >(hosts_view(out@)),
            li + cur@.len() <= i,
        decreases cs@.len() - i,
    {
        let c = cs[i];
        let ghost p = split_nl(cs@.take(i as int));
        assert(cs@.take(i + 1).drop_last() =~= cs@.take(i as int));
        assert(cs@.take(i + 1).last() == c);
        if c == '\n' {
            assert(split_nl(cs@.take(i + 1)) == p.push(Seq::empty()));
            assert(p.push(Seq::<char>::empty()).drop_last() =~= p);
            if cur.len() > 0 {
                let line = trim_chars(&cur);
                match parse_line(&line, li + 1) {
                    None => {},
                    Some(Ok(h)) => {
                        let ghost before = out@;
                        out.push(h);
                        assert(hosts_view(out@) =~= hosts_view(before).push(h@));
                    },
                    Some(Err(e)) => {
                        proof {
                            assert(parse_lines(p) is Err);
                            lemma_split_nl_append(cs@.take(i + 1), cs@.skip(i + 1));
                            assert(cs@.take(i + 1) + cs@.skip(i + 1) =~= cs@);
                            lemma_parse_lines_err_extends(p, split_nl(cs@.skip(i + 1)));
                        }
                        return Err(e);
                    },
                }
            } else {
                proof {
                    assert(trim(cur@) == cur@);
                }
            }
            cur = Vec::new();
            li += 1;
        } else {
            cur.push(c);
            proof {
                lemma_split_nl_nonempty(cs@.take(i as int));
                let q = p.update(p.len() - 1, p.last().push(c));
                assert(q.drop_last() =~= p.drop_last());
            }
        }
        i += 1;
    }
    assert(cs@.take(cs@.len() as int) =~= cs@);
    let ghost p = split_nl(cs@);
    proof { lemma_split_nl_nonempty(cs@); }
    if cur.len() == 0 {
        assert(trim(cur@) == cur@);
        assert(p =~= p.drop_last().push(p.last()));
        return Ok(out);
    }
    let line = trim_chars(&cur);
    match parse_line(&line, li + 1) {
        None => Ok(out),
        Some(Ok(h)) => {
            let ghost before = out@;
            out.push(h);
            assert(hosts_view(out@) =~= hosts_view(before).push(h@));
            Ok(out)
        },
        Some(Err(e)) => Err(e),
    }
}


/// The first line of a file the store writes.
pub open spec fn header_line() -> Seq<char> {
    "# Navis known_hosts (one entry per host:port)"@
}

/// The line of a record: `host:port algo key_b64`.
pub open spec fn host_line(h: (Seq<char>, u16, Seq<char>, Seq<char>)) -> Seq<char> {
    h.0 + ":"@ + decimal(h.1 as nat) + " "@ + h.2 + " "@ + h.3
}

/// The text the store writes for a list of records: the header, then one
/// line per record, each ending with a newline.
pub open spec fn render_spec(hs: Seq<(Seq<char>, u16, Seq<char>, Seq<char>)>) -> Seq<char>
    decreases hs.len(),
{
    if hs.len() == 0 {
        header_line() + "\n"@
    } else {
        render_spec(hs.drop_last()) + (host_line(hs.last()) + "\n"@)
    }
}

/// Renders records as the text of a `known_hosts` file.
pub fn render_known_hosts(entries: &[KnownSshHost]) -> (res: String)
    ensures
        res@ == render_spec(hosts_view(entries@)),
{
    let mut text = String::from_str("# Navis known_hosts (one entry per host:port)\n");
    proof {
        reveal_strlit("# Navis known_hosts (one entry per host:port)\n");
        reveal_strlit("# Navis known_hosts (one entry per host:port)");
        reveal_strlit("\n");
        assert(text@ =~= render_spec(hosts_view(entries@.take(0))));
    }
    let mut i: usize = 0;
    while i < entries.len()
        invariant
            i <= entries@.len(),
            text@ == render_spec(hosts_view(entries@.take(i as int))),
        decreases entries@.len() - i,
    {
        let e = &entries[i];
        let ghost before = text@;
        text.append(e.host.as_str());
        text.append(":");
        let d = string_of(&decimal_chars(e.port as u64));
        text.append(d.as_str());
        text.append(" ");
        text.append(e.algo.as_str());
        text.append(" ");
        text.append(e.key_b64.as_str());
        text.append("\n");
        proof {
            let hv = hosts_view(entries@.take(i + 1));
            assert(hv.drop_last() =~= hosts_view(entries@.take(i as int)));
            assert(hv.last() == e@);
            assert(text@ =~= before + (host_line(e@) + "\n"@));
        }
        i += 1;
    }
    assert(entries@.take(entries@.len() as int) =~= entries@);
    text
}

/// The text of an optional file.
pub open spec fn file_text(file: Option<&str>) -> Option<Seq<char>> {
    match file {
        Some(t) => Some(t@),
        None => None,
    }
}

/// The records of an optional file: none without a file.
pub open spec fn file_hosts(file: Option<Seq<char>>) -> Result<
    Seq<(Seq<char>, u16, Seq<char>, Seq<char>)>,
    Seq<char>,
> {
    match file {
        None => Ok(Seq::empty()),
        Some(t) => known_hosts_spec(t),
    }
}

/// Whether some record is for `host:port`.
pub open spec fn has_host(hs: Seq<(Seq<char>, u16, Seq<char>, Seq<char>)>, host: Seq<char>, port: u16) -> bool {
    exists|i: int| 0 <= i < hs.len() && (#[trigger] hs[i]).0 == host && hs[i].1 == port
}

/// Whether some record is for `host:port` with algorithm `algo`.
pub open spec fn has_host_algo(
    hs: Seq<(Seq<char>, u16, Seq<char>, Seq<char>)>,
    host: Seq<char>,
    port: u16,
    algo: Seq<char>,
) -> bool {
    exists|i: int| 0 <= i < hs.len() && (#[trigger] hs[i]).0 == host && hs[i].1 == port && hs[i].2 == algo
}

/// What the SSH store says of a key: trusted if a record for the host and
/// port has the same algorithm and key, a mismatch if records for the host
/// and port exist but none matches, unknown otherwise.
pub open spec fn ssh_check_spec(
    hs: Seq<(Seq<char>, u16, Seq<char>, Seq<char>)>,
    host: Seq<char>,
    port: u16,
    algo: Seq<char>,
    key_b64: Seq<char>,
) -> TrustOutcome {
    if exists|i: int| 0 <= i < hs.len() && (#[trigger] hs[i]) == (host, port, algo, key_b64) {
        TrustOutcome::Trusted
    } else if has_host(hs, host, port) {
        TrustOutcome::Mismatch
    } else {
        TrustOutcome::Unknown
    }
}

/// The records that are not for `host:port`, in order.
pub open spec fn without_host(hs: Seq<(Seq<char>, u16, Seq<char>, Seq<char>)>, host: Seq<char>, port: u16) -> Seq<
    (Seq<char>, u16, Seq<char>, Seq<char>),
>
    decreases hs.len(),
{
    if hs.len() == 0 {
        Seq::empty()
    } else {
        let rest = without_host(hs.drop_last(), host, port);
        if hs.last().0 == host && hs.last().1 == port {
            rest
        } else {
            rest.push(hs.last())
        }
    }
}

/// The SSH host-key store kept in a `known_hosts`-style file.
pub struct SshKnownHosts {
    path: String,
}

impl SshKnownHosts {
    /// The file's path.
    pub closed spec fn path_view(&self) -> Seq<char> {
        self.path@
    }

    /// A store kept at `path`.
    pub fn new(path: String) -> (res: Self)
        ensures
            res.path_view() == path@,
    {
        SshKnownHosts { path }
    }

    /// The file's path.
    pub fn path(&self) -> (res: &String)
        ensures
            res@ == self.path_view(),
    {
        &self.path
    }

    /// The records of the file's text (`None` when there is no file).
    pub fn list(&self, file: Option<&str>) -> (res: AppResult<Vec<KnownSshHost>>)
        ensures
            match file_hosts(file_text(file)) {
                Ok(hs) => res matches Ok(v) && hosts_view(v@) == hs,
                Err(m) => err_of(res) == Some(ErrorView::Storage(m)),
            },
    {
        match file {
            None => {
                let v: Vec<KnownSshHost> = Vec::new();
                assert(hosts_view(v@) =~= Seq::<(Seq<char>, u16, Seq<char>, Seq<char>)>::empty());
                Ok(v)
            },
            Some(t) => parse_known_hosts(t),
        }
    }

    /// Whether the presented key is the recorded one for `host:port`.
    pub fn check(&self, file: Option<&str>, host: &str, port: u16, algo: &str, key: &[u8]) -> (res: AppResult<TrustOutcome>)
        ensures
            match file_hosts(file_text(file)) {
                Ok(hs) => res == Ok::<TrustOutcome, AppError>(ssh_check_spec(hs, host@, port, algo@, base64_text(key@))),
                Err(m) => err_of(res) == Some(ErrorView::Storage(m)),
            },
    {
        let entries = self.list(file)?;
        let key_b64 = base64_encode(key);
        let host_s = String::from_str(host);
        let algo_s = String::from_str(algo);
        let ghost hs = hosts_view(entries@);
        let mut found_host = false;
        let mut i: usize = 0;
        while i < entries.len()
            invariant
                i <= entries@.len(),
                hs == hosts_view(entries@),
                file_hosts(file_text(file)) == Ok::<Seq<(Seq<char>, u16, Seq<char>, Seq<char>)>, Seq<char>>(hs),
                host_s@ == host@,
                algo_s@ == algo@,
                key_b64@ == base64_text(key@),
                found_host == exists|q: int| 0 <= q < i && (#[trigger] hs[q]).0 == host@ && hs[q].1 == port,
                forall|q: int| 0 <= q < i ==> (#[trigger] hs[q]) != (host@, port, algo@, key_b64@),
            decreases entries@.len() - i,
        {
            let e = &entries[i];
            assert(hs[i as int] == e@);
            if e.host == host_s && e.port == port {
                found_host = true;
                if e.algo == algo_s && e.key_b64 == key_b64 {
                    return Ok(TrustOutcome::Trusted);
                }
            }
            i += 1;
        }
        if found_host {
            Ok(TrustOutcome::Mismatch)
        } else {
            Ok(TrustOutcome::Unknown)
        }
    }
}


impl SshKnownHosts {
    /// Records the key of a host seen for the first time and gives the new
    /// file text. Refuses when `host:port` already has a key for `algo`.
    pub fn trust_on_first_use(&self, file: Option<&str>, host: &str, port: u16, algo: &str, key: &[u8]) -> (res: AppResult<String>)
        ensures
            match file_hosts(file_text(file)) {
                Err(m) => err_of(res) == Some(ErrorView::Storage(m)),
                Ok(hs) => if has_host_algo(hs, host@, port, algo@) {
                    err_of(res) == Some(ErrorView::InvalidInput("host already has a key recorded; use update"@))
                } else {
                    res matches Ok(t) && t@ == render_spec(hs.push((host@, port, algo@, base64_text(key@))))
                        && (key@.len() > 0 && storable_host_algo(host@, algo@) ==> file_hosts(Some(t@))
                        == Ok::<Seq<(Seq<char>, u16, Seq<char>, Seq<char>)>, Seq<char>>(
                        hs.push((host@, port, algo@, base64_text(key@))),
                    ))
                },
            },
    {
        let mut entries = self.list(file)?;
        let key_b64 = base64_encode(key);
        let host_s = String::from_str(host);
        let algo_s = String::from_str(algo);
        let ghost hs = hosts_view(entries@);
        let mut i: usize = 0;
        while i < entries.len()
            invariant
                i <= entries@.len(),
                hs == hosts_view(entries@),
                file_hosts(file_text(file)) == Ok::<Seq<(Seq<char>, u16, Seq<char>, Seq<char>)>, Seq<char>>(hs),
                host_s@ == host@,
                algo_s@ == algo@,
                forall|q: int| 0 <= q < i ==> !((#[trigger] hs[q]).0 == host@ && hs[q].1 == port && hs[q].2 == algo@),
            decreases entries@.len() - i,
        {
            let e = &entries[i];
            assert(hs[i as int] == e@);
            if e.host == host_s && e.port == port && e.algo == algo_s {
                return Err(AppError::InvalidInput(String::from_str("host already has a key recorded; use update")));
            }
            i += 1;
        }
        let ghost ek = key_b64@;
        entries.push(KnownSshHost { host: host_s, port, algo: algo_s, key_b64 });
        let ghost all = hs.push((host@, port, algo@, ek));
        assert(hosts_view(entries@) =~= all);
        proof {
            if key@.len() > 0 && storable_host_algo(host@, algo@) {
                lemma_file_hosts_storable(file_text(file));
                crate::encoding::lemma_base64_text_shape(key@);
                assert(ek.len() > 0);
                assert forall|q: int| 0 <= q < ek.len() implies ek[q] != '\n' by {
                    assert(crate::encoding::is_base64_char(ek[q]));
                }
                assert(crate::encoding::is_base64_char(ek[ek.len() - 1]));
                assert(storable(all.last()));
                assert forall|q: int| 0 <= q < all.len() implies storable(#[trigger] all[q]) by {
                    if q < hs.len() {
                        assert(all[q] == hs[q]);
                    }
                }
                law_render_then_parse(all);
            }
        }
        Ok(render_known_hosts(entries.as_slice()))
    }

    /// Removes every record for `host:port` and gives the new file text.
    pub fn forget(&self, file: Option<&str>, host: &str, port: u16) -> (res: AppResult<String>)
        ensures
            match file_hosts(file_text(file)) {
                Err(m) => err_of(res) == Some(ErrorView::Storage(m)),
                Ok(hs) => res matches Ok(t) && t@ == render_spec(without_host(hs, host@, port)) && file_hosts(
                    Some(t@),
                ) == Ok::<Seq<(Seq<char>, u16, Seq<char>, Seq<char>)>, Seq<char>>(without_host(hs, host@, port)),
            },
    {
        let entries = self.list(file)?;
        let host_s = String::from_str(host);
        let ghost hs = hosts_view(entries@);
        let mut kept: Vec<KnownSshHost> = Vec::new();
        let mut i: usize = 0;
        assert(hs.take(0) =~= Seq::<(Seq<char>, u16, Seq<char>, Seq<char>)>::empty());
        assert(hosts_view(kept@) =~= Seq::<(Seq<char>, u16, Seq<char>, Seq<char>)>::empty());
        while i < entries.len()
            invariant
                i <= entries@.len(),
                hs == hosts_view(entries@),
                host_s@ == host@,
                hosts_view(kept@) == without_host(hs.take(i as int), host@, port),
            decreases entries@.len() - i,
        {
            let e = &entries[i];
            assert(hs.take(i + 1).drop_last() =~= hs.take(i as int));
            assert(hs.take(i + 1).last() == e@);
            if !(e.host == host_s && e.port == port) {
                let ghost before = kept@;
                kept.push(e.clone());
                assert(hosts_view(kept@) =~= hosts_view(before).push(e@));
            }
            i += 1;
        }
        assert(hs.take(entries@.len() as int) =~= hs);
        proof {
            lemma_file_hosts_storable(file_text(file));
            lemma_without_host_members(hs, host@, port);
            law_render_then_parse(without_host(hs, host@, port));
        }
        Ok(render_known_hosts(kept.as_slice()))
    }
}

/// The key of a pin: `host:port`.
pub open spec fn pin_key_spec(host: Seq<char>, port: u16) -> Seq<char> {
    host + ":"@ + decimal(port as nat)
}

/// The thumbprint of a certificate: its SHA-256 digest in lowercase hex.
pub open spec fn thumbprint(cert_der: Seq<u8>) -> Seq<char> {
    hex_lower(sha256_of(cert_der))
}

/// The key of a pin for `host:port`.
pub fn pin_key(host: &str, port: u16) -> (res: String)
    ensures
        res@ == pin_key_spec(host@, port),
{
    let mut k = String::from_str(host);
    k.append(":");
    let d = string_of(&decimal_chars(port as u64));
    k.append(d.as_str());
    proof { reveal_strlit(":"); }
    k
}

/// The SHA-256 thumbprint of a certificate, in lowercase hex.
pub fn sha256_hex(bytes: &[u8]) -> (res: String)
    ensures
        res@ == thumbprint(bytes@),
{
    let digest = sha256(bytes);
    hex_encode(digest.as_slice())
}

/// What the RDP pin store says of a certificate: trusted if the pin for
/// `host:port` is its thumbprint, a mismatch if the pin is another, unknown
/// without a pin.
pub open spec fn rdp_check_spec(pins: Seq<(String, String)>, host: Seq<char>, port: u16, cert_der: Seq<u8>) -> TrustOutcome {
    match lookup(pins, pin_key_spec(host, port)) {
        Some(t) => if t@ == thumbprint(cert_der) {
            TrustOutcome::Trusted
        } else {
            TrustOutcome::Mismatch
        },
        None => TrustOutcome::Unknown,
    }
}

/// The RDP certificate pins: `host:port` to SHA-256 thumbprint, in key order.
#[derive(Debug)]
pub struct RdpPinStore {
    pins: Vec<(String, String)>,
}

impl Default for RdpPinStore {
    fn default() -> (res: Self)
        ensures
            res.pins_view().len() == 0,
            res.wf(),
    {
        RdpPinStore { pins: Vec::new() }
    }
}

/// The pins in key order, one per key, the later of two pins with the same
/// key winning (as reading them into a sorted map does).
fn sorted_pins(ps: &Vec<(String, String)>) -> (res: Vec<(String, String)>)
    ensures
        entries_sorted(res@),
        forall|k: Seq<char>| lookup(res@, k) == crate::keyed::map_get(crate::keyed::entries_map(ps@), k),
{
    let mut out: Vec<(String, String)> = Vec::new();
    let mut i: usize = 0;
    while i < ps.len()
        invariant
            i <= ps@.len(),
            entries_sorted(out@),
            forall|k: Seq<char>| lookup(out@, k) == crate::keyed::map_get(crate::keyed::entries_map(ps@.take(i as int)), k),
        decreases ps@.len() - i,
    {
        let key = ps[i].0.clone();
        let v = ps[i].1.clone();
        entry_insert(&mut out, key, v);
        proof {
            let t = ps@.take(i + 1);
            assert(t.drop_last() == ps@.take(i as int));
            assert(t.last() == ps@[i as int]);
        }
        i += 1;
    }
    assert(ps@.take(ps@.len() as int) == ps@);
    out
}

impl RdpPinStore {
    /// The pins, in key order.
    pub closed spec fn pins_view(&self) -> Seq<(String, String)> {
        self.pins@
    }

    /// The pins are in strictly increasing key order.
    pub open spec fn wf(&self) -> bool {
        entries_sorted(self.pins_view())
    }

    /// A store holding the given `host:port` to thumbprint pairs (a later
    /// pair for the same key replaces an earlier one).
    pub fn from_pins(pins: Vec<(String, String)>) -> (res: Self)
        ensures
            res.wf(),
            forall|k: Seq<char>| lookup(res.pins_view(), k) == crate::keyed::map_get(crate::keyed::entries_map(pins@), k),
    {
        RdpPinStore { pins: sorted_pins(&pins) }
    }

    /// The store the pin file holds: its pairs as `from_pins` takes them, or
    /// no pins when the file could not be parsed (`None`), so that a
    /// corrupted file does not lock users out.
    pub fn from_file(parsed: Option<Vec<(String, String)>>) -> (res: Self)
        ensures
            res.wf(),
            match parsed {
                None => res.pins_view().len() == 0,
                Some(p) => forall|k: Seq<char>| lookup(res.pins_view(), k) == crate::keyed::map_get(
                    crate::keyed::entries_map(p@),
                    k,
                ),
            },
    {
        match parsed {
            None => RdpPinStore::default(),
            Some(p) => RdpPinStore::from_pins(p),
        }
    }

    /// The pins, in key order.
    pub fn pins(&self) -> (res: &Vec<(String, String)>)
        ensures
            res@ == self.pins_view(),
    {
        &self.pins
    }

    /// The number of pins.
    pub fn len(&self) -> (res: usize)
        ensures
            res == self.pins_view().len(),
    {
        self.pins.len()
    }

    /// Whether the certificate is the one pinned for `host:port`.
    pub fn check(&self, host: &str, port: u16, cert_der: &[u8]) -> (res: TrustOutcome)
        requires
            self.wf(),
        ensures
            res == rdp_check_spec(self.pins_view(), host@, port, cert_der@),
    {
        let key = pin_key(host, port);
        let thumb = sha256_hex(cert_der);
        match entry_find(&self.pins, &key) {
            Some(i) => if self.pins[i].1 == thumb {
                TrustOutcome::Trusted
            } else {
                TrustOutcome::Mismatch
            },
            None => TrustOutcome::Unknown,
        }
    }

    /// Pins the certificate for `host:port`, replacing any earlier pin.
    pub fn pin(&mut self, host: &str, port: u16, cert_der: &[u8])
        requires
            old(self).wf(),
        ensures
            final(self).wf(),
            lookup(final(self).pins_view(), pin_key_spec(host@, port)) matches Some(t) && t@ == thumbprint(cert_der@),
            forall|k: Seq<char>| k != pin_key_spec(host@, port) ==> lookup(final(self).pins_view(), k) == lookup(
                old(self).pins_view(),
                k,
            ),
    {
        let key = pin_key(host, port);
        let thumb = sha256_hex(cert_der);
        entry_insert(&mut self.pins, key, thumb);
    }

    /// Removes the pin for `host:port`, if any.
    pub fn forget(&mut self, host: &str, port: u16)
        requires
            old(self).wf(),
        ensures
            final(self).wf(),
            lookup(final(self).pins_view(), pin_key_spec(host@, port)) is None,
            forall|k: Seq<char>| k != pin_key_spec(host@, port) ==> lookup(final(self).pins_view(), k) == lookup(
                old(self).pins_view(),
                k,
            ),
    {
        let key = pin_key(host, port);
        entry_remove(&mut self.pins, &key);
    }
}


/// `s` holds no `c`.
pub open spec fn no_char(s: Seq<char>, c: char) -> bool {
    forall|i: int| 0 <= i < s.len() ==> s[i] != c
}

/// Whether a host and algorithm can be written to a line and read back:
/// neither holds a space or a newline, and the host does not start with
/// white space or `#`.
pub open spec fn storable_host_algo(host: Seq<char>, algo: Seq<char>) -> bool {
    &&& no_char(host, ' ')
    &&& no_char(host, '\n')
    &&& (host.len() > 0 ==> !is_white(host[0]) && host[0] != '#')
    &&& no_char(algo, ' ')
    &&& no_char(algo, '\n')
}

/// Whether a record can be written to a line and read back: a storable
/// host and algorithm, and a non-empty key without newlines that does not
/// end with white space.
pub open spec fn storable(h: (Seq<char>, u16, Seq<char>, Seq<char>)) -> bool {
    &&& storable_host_algo(h.0, h.2)
    &&& h.3.len() > 0
    &&& no_char(h.3, '\n')
    &&& !is_white(h.3.last())
}

proof fn lemma_line_parses(h: (Seq<char>, u16, Seq<char>, Seq<char>), n: nat)
    requires
        storable(h),
    ensures
        trim(host_line(h)) == host_line(h),
        parse_line_spec(host_line(h), n) == LineParse::Host(h),
        no_char(host_line(h), '\n'),
{
    reveal_strlit(":");
    reveal_strlit(" ");
    let (hh, port, algo, key) = h;
    let d = decimal(port as nat);
    crate::text::lemma_decimal_digits(port as nat);
    let l = host_line(h);
    assert(l =~= hh + seq![':'] + d + seq![' '] + algo + seq![' '] + key);
    let i1: int = (hh.len() + 1 + d.len()) as int;
    assert(l[i1] == ' ');
    assert forall|q: int| 0 <= q < i1 implies l[q] != ' ' by {
        if q < hh.len() {
            assert(l[q] == hh[q]);
        } else if q > hh.len() {
            assert(l[q] == d[q - hh.len() - 1]);
        }
    }
    crate::text::lemma_split_first_at(l, ' ', i1);
    assert(l.take(i1) =~= hh + seq![':'] + d);
    assert(l.skip(i1 + 1) =~= algo + seq![' '] + key);
    let rest = algo + seq![' '] + key;
    assert(rest[algo.len() as int] == ' ');
    assert forall|q: int| 0 <= q < algo.len() implies rest[q] != ' ' by {
        assert(rest[q] == algo[q]);
    }
    crate::text::lemma_split_first_at(rest, ' ', algo.len() as int);
    assert(rest.take(algo.len() as int) =~= algo);
    assert(rest.skip(algo.len() + 1int) =~= key);
    let hp = hh + seq![':'] + d;
    assert(hp[hh.len() as int] == ':');
    assert forall|q: int| hh.len() < q < hp.len() implies hp[q] != ':' by {
        assert(hp[q] == d[q - hh.len() - 1]);
    }
    crate::text::lemma_split_last_at(hp, ':', hh.len() as int);
    assert(hp.take(hh.len() as int) =~= hh);
    assert(hp.skip(hh.len() + 1int) =~= d);
    crate::text::lemma_parse_decimal(port as nat);
    assert(l[0] != '#' && !is_white(l[0])) by {
        if hh.len() > 0 {
            assert(l[0] == hh[0]);
        } else {
            assert(l[0] == ':');
        }
    }
    assert(l.last() == key.last());
    crate::text::lemma_trim_id(l);
    assert forall|q: int| 0 <= q < l.len() implies l[q] != '\n' by {
        if q < hh.len() {
            assert(l[q] == hh[q]);
        } else if hh.len() < q < i1 {
            assert(l[q] == d[q - hh.len() - 1]);
        } else if i1 < q < i1 + 1 + algo.len() {
            assert(l[q] == algo[q - i1 - 1]);
        } else if q > i1 + algo.len() + 1 {
            assert(l[q] == key[q - i1 - algo.len() - 2]);
        }
    }
}

proof fn lemma_render_lines(hs: Seq<(Seq<char>, u16, Seq<char>, Seq<char>)>)
    requires
        forall|i: int| 0 <= i < hs.len() ==> storable(#[trigger] hs[i]),
    ensures
        split_nl(render_spec(hs)).len() >= 1,
        split_nl(render_spec(hs)).last() == Seq::<char>::empty(),
        parse_lines(split_nl(render_spec(hs)).drop_last()) == Ok::<
            Seq<(Seq<char>, u16, Seq<char>, Seq<char>)>,
            Seq<char>,
        >(hs),
        render_spec(hs).len() > 0 && render_spec(hs).last() == '\n',
    decreases hs.len(),
{
    reveal_strlit("# Navis known_hosts (one entry per host:port)");
    reveal_strlit("\n");
    if hs.len() == 0 {
        let hd = header_line();
        crate::text::lemma_split_nl_single(hd);
        assert((hd + "\n"@).drop_last() =~= hd);
        assert(split_nl(hd + "\n"@) == seq![hd].push(Seq::<char>::empty()));
        assert(seq![hd].push(Seq::<char>::empty()).drop_last() =~= seq![hd]);
        crate::text::lemma_trim_id(hd);
        assert(seq![hd].drop_last() =~= Seq::<Seq<char>>::empty());
        assert(hs =~= Seq::<(Seq<char>, u16, Seq<char>, Seq<char>)>::empty());
        assert(trim(hd)[0] == '#');
        assert(parse_line_spec(trim(seq![hd].last()), 1) == LineParse::Skip);
        assert(parse_lines(seq![hd].drop_last()) == Ok::<Seq<(Seq<char>, u16, Seq<char>, Seq<char>)>, Seq<char>>(hs));
        assert(parse_lines(seq![hd]) == Ok::<Seq<(Seq<char>, u16, Seq<char>, Seq<char>)>, Seq<char>>(hs));
    } else {
        let prev = hs.drop_last();
        let h = hs.last();
        lemma_render_lines(prev);
        let r = render_spec(prev);
        let line = host_line(h);
        lemma_line_parses(h, (split_nl(r).drop_last().len() + 1) as nat);
        crate::text::lemma_split_nl_single(line);
        assert((line + "\n"@).drop_last() =~= line);
        assert(split_nl(line + "\n"@) == seq![line].push(Seq::<char>::empty()));
        crate::text::lemma_split_nl_append(r, line + "\n"@);
        let dd = split_nl(r).drop_last();
        let all = dd + seq![line].push(Seq::<char>::empty());
        assert(all.drop_last() =~= dd.push(line));
        assert(dd.push(line).drop_last() =~= dd);
        assert(prev.push(h) =~= hs);
        assert(render_spec(hs) == r + (line + "\n"@));
        assert(split_nl(render_spec(hs)) == all);
        assert(parse_lines(dd) == Ok::<Seq<(Seq<char>, u16, Seq<char>, Seq<char>)>, Seq<char>>(prev));
        assert(dd.push(line).last() == line);
        assert(parse_line_spec(trim(line), dd.push(line).len()) == LineParse::Host(h));
        assert(parse_lines(dd.push(line)) == Ok::<Seq<(Seq<char>, u16, Seq<char>, Seq<char>)>, Seq<char>>(hs));
    }
}

/// Writing storable records and reading the text back gives the same
/// records.
pub proof fn law_render_then_parse(hs: Seq<(Seq<char>, u16, Seq<char>, Seq<char>)>)
    requires
        forall|i: int| 0 <= i < hs.len() ==> storable(#[trigger] hs[i]),
    ensures
        known_hosts_spec(render_spec(hs)) == Ok::<Seq<(Seq<char>, u16, Seq<char>, Seq<char>)>, Seq<char>>(hs),
{
    lemma_render_lines(hs);
    let p = split_nl(render_spec(hs));
    assert(trim(p.last()) =~= Seq::<char>::empty());
}

proof fn lemma_parsed_line_storable(l: Seq<char>, n: nat)
    requires
        no_char(l, '\n'),
    ensures
        parse_line_spec(trim(l), n) matches LineParse::Host(h) ==> storable(h),
{
    let t = trim(l);
    crate::text::lemma_trim_piece(l);
    if let LineParse::Host(h) = parse_line_spec(t, n) {
        let (lo, hi) = choose|lo: int, hi: int| 0 <= lo <= hi <= l.len() && t == l.subrange(lo, hi);
        assert(no_char(t, '\n')) by {
            assert forall|i: int| 0 <= i < t.len() implies t[i] != '\n' by {
                assert(t[i] == l[lo + i]);
            }
        }
        crate::text::lemma_split_first_parts(t, ' ');
        let (hp, rest) = split_first(t, ' ')->0;
        crate::text::lemma_split_first_parts(rest, ' ');
        let (algo, key) = split_first(rest, ' ')->0;
        crate::text::lemma_split_last_parts(hp, ':');
        let (host, ps) = split_last(hp, ':')->0;
        assert(t =~= host + seq![':'] + ps + seq![' '] + algo + seq![' '] + key);
        assert(h == (host, h.1, algo, key));
        assert forall|i: int| 0 <= i < host.len() implies host[i] != ' ' && host[i] != '\n' by {
            assert(t[i] == host[i]);
            assert(hp[i] == host[i]);
        }
        let a0: int = (host.len() + 1 + ps.len() + 1) as int;
        assert forall|i: int| 0 <= i < algo.len() implies algo[i] != ' ' && algo[i] != '\n' by {
            assert(t[a0 + i] == algo[i]);
        }
        let k0: int = a0 + algo.len() + 1;
        assert forall|i: int| 0 <= i < key.len() implies key[i] != '\n' by {
            assert(t[k0 + i] == key[i]);
        }
        if host.len() > 0 {
            assert(t[0] == host[0]);
        }
        if key.len() == 0 {
            assert(t.last() == ' ');
        } else {
            assert(t.last() == key.last());
        }
    }
}

proof fn lemma_parsed_storable(lines: Seq<Seq<char>>)
    requires
        forall|k: int, i: int| 0 <= k < lines.len() && 0 <= i < lines[k].len() ==> #[trigger] lines[k][i] != '\n',
    ensures
        parse_lines(lines) matches Ok(hs) ==> forall|i: int| 0 <= i < hs.len() ==> storable(#[trigger] hs[i]),
    decreases lines.len(),
{
    if lines.len() > 0 {
        let prev = lines.drop_last();
        assert forall|k: int, i: int| 0 <= k < prev.len() && 0 <= i < prev[k].len() implies #[trigger] prev[k][i] != '\n' by {
            assert(prev[k] == lines[k]);
        }
        lemma_parsed_storable(prev);
        let l = lines.last();
        assert(no_char(l, '\n')) by {
            assert forall|i: int| 0 <= i < l.len() implies l[i] != '\n' by {
                assert(lines[lines.len() - 1][i] == l[i]);
            }
        }
        lemma_parsed_line_storable(l, lines.len());
    }
}

/// Every record read from a file can be written back and read again.
pub proof fn lemma_file_hosts_storable(file: Option<Seq<char>>)
    ensures
        file_hosts(file) matches Ok(hs) ==> forall|i: int| 0 <= i < hs.len() ==> storable(#[trigger] hs[i]),
{
    if let Some(t) = file {
        crate::text::lemma_split_nl_pieces(t);
        lemma_parsed_storable(split_nl(t));
    }
}


/// The records kept by `without_host` are records of the list, none of them
/// for `host:port`.
pub proof fn lemma_without_host_members(hs: Seq<(Seq<char>, u16, Seq<char>, Seq<char>)>, host: Seq<char>, port: u16)
    ensures
        forall|i: int| 0 <= i < without_host(hs, host, port).len() ==> exists|j: int| 0 <= j < hs.len() && hs[j] == #[trigger] without_host(hs, host, port)[i],
        forall|i: int| 0 <= i < without_host(hs, host, port).len() ==> !((#[trigger] without_host(hs, host, port)[i]).0 == host
            && without_host(hs, host, port)[i].1 == port),
    decreases hs.len(),
{
    if hs.len() > 0 {
        let prev = hs.drop_last();
        lemma_without_host_members(prev, host, port);
        let r = without_host(prev, host, port);
        assert forall|i: int| 0 <= i < r.len() implies exists|j: int| 0 <= j < hs.len() && hs[j] == #[trigger] r[i] by {
            let j = choose|j: int| 0 <= j < prev.len() && prev[j] == r[i];
            assert(hs[j] == prev[j]);
        }
        if !(hs.last().0 == host && hs.last().1 == port) {
            let w = r.push(hs.last());
            assert forall|i: int| 0 <= i < w.len() implies exists|j: int| 0 <= j < hs.len() && hs[j] == #[trigger] w[i] by {
                if i < r.len() {
                    assert(w[i] == r[i]);
                } else {
                    assert(hs[hs.len() - 1] == w[i]);
                }
            }
        }
    }
}

/// After trusting a key for `host:port`, checking that key there gives
/// `Trusted`.
pub proof fn law_trusted_after_trust(
    hs: Seq<(Seq<char>, u16, Seq<char>, Seq<char>)>,
    host: Seq<char>,
    port: u16,
    algo: Seq<char>,
    key_b64: Seq<char>,
)
    ensures
        ssh_check_spec(hs.push((host, port, algo, key_b64)), host, port, algo, key_b64) == TrustOutcome::Trusted,
{
    let all = hs.push((host, port, algo, key_b64));
    assert(all[hs.len() as int] == (host, port, algo, key_b64));
}

/// Once a host has a recorded key, any other key (or algorithm) presented
/// for it is a mismatch, never unknown.
pub proof fn law_other_key_mismatches(
    hs: Seq<(Seq<char>, u16, Seq<char>, Seq<char>)>,
    host: Seq<char>,
    port: u16,
    algo: Seq<char>,
    key_b64: Seq<char>,
)
    requires
        has_host(hs, host, port),
        forall|i: int| 0 <= i < hs.len() ==> (#[trigger] hs[i]) != (host, port, algo, key_b64),
    ensures
        ssh_check_spec(hs, host, port, algo, key_b64) == TrustOutcome::Mismatch,
{
}

/// After forgetting `host:port`, every key presented for it is unknown.
pub proof fn law_unknown_after_forget(
    hs: Seq<(Seq<char>, u16, Seq<char>, Seq<char>)>,
    host: Seq<char>,
    port: u16,
    algo: Seq<char>,
    key_b64: Seq<char>,
)
    ensures
        ssh_check_spec(without_host(hs, host, port), host, port, algo, key_b64) == TrustOutcome::Unknown,
{
    lemma_without_host_members(hs, host, port);
    let w = without_host(hs, host, port);
    assert(!has_host(w, host, port));
    assert(!exists|i: int| 0 <= i < w.len() && (#[trigger] w[i]) == (host, port, algo, key_b64));
}

/// After pinning a certificate for `host:port`, checking it there gives
/// `Trusted`, and checking a certificate with another SHA-256 digest gives
/// `Mismatch`.
pub proof fn law_pin_then_check(pins: Seq<(String, String)>, host: Seq<char>, port: u16, cert: Seq<u8>, other: Seq<u8>)
    requires
        lookup(pins, pin_key_spec(host, port)) matches Some(t) && t@ == thumbprint(cert),
    ensures
        rdp_check_spec(pins, host, port, cert) == TrustOutcome::Trusted,
        sha256_of(other) != sha256_of(cert) ==> rdp_check_spec(pins, host, port, other) == TrustOutcome::Mismatch,
{
    if sha256_of(other) != sha256_of(cert) && thumbprint(other) == thumbprint(cert) {
        lemma_hex_lower_injective(sha256_of(other), sha256_of(cert));
    }
}

/// After forgetting the pin of `host:port`, every certificate there is
/// unknown.
pub proof fn law_unknown_after_unpin(pins: Seq<(String, String)>, host: Seq<char>, port: u16, cert: Seq<u8>)
    requires
        lookup(pins, pin_key_spec(host, port)) is None,
    ensures
        rdp_check_spec(pins, host, port, cert) == TrustOutcome::Unknown,
{
}

/// Checking a host key: `Trusted` whenever some record is for that host
/// and port with that algorithm and key, whatever other records the host
/// and port have; `Mismatch` when the host and port have records but none
/// with that algorithm and key; `Unknown` when they have none.
pub proof fn law_ssh_check_outcomes(
    hs: Seq<(Seq<char>, u16, Seq<char>, Seq<char>)>,
    host: Seq<char>,
    port: u16,
    algo: Seq<char>,
    key_b64: Seq<char>,
    i: int,
)
    ensures
        0 <= i < hs.len() && hs[i].0 == host && hs[i].1 == port && hs[i].2 == algo && hs[i].3 == key_b64
            ==> ssh_check_spec(hs, host, port, algo, key_b64) == TrustOutcome::Trusted,
        0 <= i < hs.len() && hs[i].0 == host && hs[i].1 == port && (forall|j: int|
            0 <= j < hs.len() ==> !((#[trigger] hs[j]).0 == host && hs[j].1 == port && hs[j].2 == algo && hs[j].3
                == key_b64)) ==> ssh_check_spec(hs, host, port, algo, key_b64) == TrustOutcome::Mismatch,
        (forall|j: int| 0 <= j < hs.len() ==> !((#[trigger] hs[j]).0 == host && hs[j].1 == port)) ==> ssh_check_spec(
            hs,
            host,
            port,
            algo,
            key_b64,
        ) == TrustOutcome::Unknown,
{
    if 0 <= i < hs.len() && hs[i].0 == host && hs[i].1 == port && hs[i].2 == algo && hs[i].3 == key_b64 {
        assert(hs[i] == (host, port, algo, key_b64));
    }
    if 0 <= i < hs.len() && hs[i].0 == host && hs[i].1 == port {
        assert(has_host(hs, host, port));
    }
    if exists|k: int| 0 <= k < hs.len() && (#[trigger] hs[k]) == (host, port, algo, key_b64) {
        let k = choose|k: int| 0 <= k < hs.len() && (#[trigger] hs[k]) == (host, port, algo, key_b64);
        assert(hs[k].0 == host && hs[k].1 == port && hs[k].2 == algo && hs[k].3 == key_b64);
    }
}

/// Forgetting `host:port` removes exactly its records: the records left
/// are those of the file for any other host or port, in their order.
pub proof fn law_forget_keeps_other_records(hs: Seq<(Seq<char>, u16, Seq<char>, Seq<char>)>, host: Seq<char>, port: u16)
    ensures
        without_host(hs, host, port) == hs.filter(
            |r: (Seq<char>, u16, Seq<char>, Seq<char>)| !(r.0 == host && r.1 == port),
        ),
    decreases hs.len(),
{
    let pred = |r: (Seq<char>, u16, Seq<char>, Seq<char>)| !(r.0 == host && r.1 == port);
    reveal(Seq::filter);
    if hs.len() == 0 {
        assert(hs.filter(pred) =~= Seq::empty());
    } else {
        law_forget_keeps_other_records(hs.drop_last(), host, port);
    }
}

} // verus!
