//! The WebDAV side of synchronisation that does not touch the network: the
//! concurrency modes a server can support, the remote directory and file
//! names, and the texts of transport errors.

use vstd::prelude::*;
use vstd::string::StringExecFns;
use crate::encoding::{decimal_string, decimal_text, string_from_chars};
use crate::error::{network_error, SyncError, SyncErrorView};
use crate::text::{
    chars_lt, chars_of, compare_str, find_from, find_spec, lemma_chars_lt_order,
    trim, trim_chars, trim_end, Rank, Strip,
};

verus! {

/// How concurrent writers are kept apart on a server: conditional writes on
/// entity tags, WebDAV locks, or neither (`Plain`: a re-read before each write, stored as `none`).
#[derive(Debug, Clone, Copy, PartialEq, Eq, Structural)]
pub enum ConcurrencyMode {
    Etag,
    Lock,
    Plain,
}

/// A file read from the server, with its entity tag when the server sent one.
#[derive(Debug, Clone)]
pub struct RemoteFile {
    pub bytes: Vec<u8>,
    pub etag: Option<String>,
}

/// The lowercase name of a mode, as stored and shown.
pub open spec fn mode_text(mode: ConcurrencyMode) -> Seq<char> {
    match mode {
        ConcurrencyMode::Etag => "etag"@,
        ConcurrencyMode::Lock => "lock"@,
        ConcurrencyMode::Plain => "none"@,
    }
}

/// The lowercase name of a mode.
pub fn concurrency_mode_name(mode: ConcurrencyMode) -> (r: String)
    ensures
        r@ == mode_text(mode),
{
    proof {
        reveal_strlit("etag");
        reveal_strlit("lock");
        reveal_strlit("none");
    }
    match mode {
        ConcurrencyMode::Etag => "etag".to_owned(),
        ConcurrencyMode::Lock => "lock".to_owned(),
        ConcurrencyMode::Plain => "none".to_owned(),
    }
}

/// The directory used when none is configured.
pub open spec fn default_directory() -> Seq<char> {
    "tracer-sync"@
}

/// Whether one of the `/`-separated segments of `f` is `.` or `..`.
pub open spec fn has_relative_segment(f: Seq<char>) -> bool {
    exists|i: int, j: int|
        0 <= i <= j <= f.len() && (i == 0 || f[i - 1] == '/') && (j == f.len() || f[j] == '/')
            && (#[trigger] f.subrange(i, j) == "."@ || f.subrange(i, j) == ".."@)
}

/// The configured directory, trimmed, or the default one when it is absent
/// or blank.
pub open spec fn chosen_directory(directory: Option<Seq<char>>) -> Seq<char> {
    match directory {
        Some(d) if trim(d, Strip::WhiteSpace).len() > 0 => trim(d, Strip::WhiteSpace),
        _ => default_directory(),
    }
}

/// The path of the sync directory below the server root, with one trailing
/// slash, or the error for a directory with a relative segment.
pub open spec fn directory_path(directory: Option<Seq<char>>) -> Result<Seq<char>, SyncErrorView> {
    let f = chosen_directory(directory);
    if has_relative_segment(f) {
        Err(SyncErrorView::Network("同步目录不能包含相对路径片段"@))
    } else {
        Ok(trim(f, Strip::Slash) + seq!['/'])
    }
}

/// Whether the segment `v[start..end]` is `.` or `..`.
fn is_dot_segment(v: &Vec<char>, start: usize, end: usize) -> (r: bool)
    requires
        start <= end <= v@.len(),
    ensures
        r == (v@.subrange(start as int, end as int) == "."@ || v@.subrange(start as int, end as int) == ".."@),
{
    proof {
        reveal_strlit(".");
        reveal_strlit("..");
    }
    let len = end - start;
    if len == 1 {
        let r = v[start] == '.';
        if !r {
            assert(v@.subrange(start as int, end as int)[0] != "."@[0]);
        } else {
            assert(v@.subrange(start as int, end as int) =~= "."@);
        }
        r
    } else if len == 2 {
        let r = v[start] == '.' && v[start + 1] == '.';
        if !r {
            if v[start] != '.' {
                assert(v@.subrange(start as int, end as int)[0] != ".."@[0]);
            } else {
                assert(v@.subrange(start as int, end as int)[1] != ".."@[1]);
            }
        } else {
            assert(v@.subrange(start as int, end as int) =~= ".."@);
        }
        r
    } else {
        false
    }
}

proof fn lemma_dot_texts()
    ensures
        "."@.len() == 1 && "."@[0] == '.',
        ".."@.len() == 2 && ".."@[0] == '.' && ".."@[1] == '.',
{
    reveal_strlit(".");
    reveal_strlit("..");
}

/// A run `v[i..j]` that holds a `/` is no `.` or `..` segment.
proof fn lemma_slash_not_dots(v: Seq<char>, i: int, j: int, m: int)
    requires
        0 <= i <= m < j <= v.len(),
        v[m] == '/',
    ensures
        !(v.subrange(i, j) == "."@ || v.subrange(i, j) == ".."@),
{
    lemma_dot_texts();
    let t = v.subrange(i, j);
    assert(t[m - i] == '/');
}

/// Whether some `/`-separated segment of the characters is `.` or `..`.
fn find_relative_segment(v: &Vec<char>) -> (r: bool)
    ensures
        r == has_relative_segment(v@),
{
    let n = v.len();
    let mut start: usize = 0;
    let mut k: usize = 0;
    while k < n
        invariant
            n == v@.len(),
            start <= k <= n,
            start == 0 || v@[start - 1] == '/',
            forall|m: int| start <= m < k ==> v@[m] != '/',
            forall|i: int, j: int|
                0 <= i <= j <= n && j < k && (i == 0 || v@[i - 1] == '/') && (j == n || v@[j] == '/')
                    ==> !(#[trigger] v@.subrange(i, j) == "."@ || v@.subrange(i, j) == ".."@),
        decreases n - k,
    {
        if v[k] == '/' {
            if is_dot_segment(v, start, k) {
                return true;
            }
            proof {
                assert forall|i: int, j: int|
                    0 <= i <= j <= n && j < k + 1 && (i == 0 || v@[i - 1] == '/') && (j == n || v@[j] == '/')
                        implies !(#[trigger] v@.subrange(i, j) == "."@ || v@.subrange(i, j) == ".."@) by {
                    if j == k {
                        if i < start {
                            lemma_slash_not_dots(v@, i, j, start - 1);
                        } else if i > start {
                            assert(v@[i - 1] != '/');
                        }
                    }
                }
            }
            start = k + 1;
        }
        k = k + 1;
    }
    if is_dot_segment(v, start, n) {
        return true;
    }
    proof {
        assert forall|i: int, j: int|
            0 <= i <= j <= n && (i == 0 || v@[i - 1] == '/') && (j == n || v@[j] == '/')
                implies !(#[trigger] v@.subrange(i, j) == "."@ || v@.subrange(i, j) == ".."@) by {
            if j == n {
                if i < start {
                    lemma_slash_not_dots(v@, i, j, start - 1);
                } else if i > start {
                    assert(v@[i - 1] != '/');
                }
            }
        }
    }
    false
}

/// The directory path for the given configuration: the trimmed directory (or
/// `tracer-sync` when none or only blanks is given), with leading and
/// trailing slashes removed and one slash appended. A `.` or `..` segment is
/// refused.
pub fn sync_directory(directory: Option<&str>) -> (r: Result<String, SyncError>)
    ensures
        match r {
            Ok(p) => directory_path(match directory { Some(d) => Some(d@), None => None }) == Ok::<Seq<char>, SyncErrorView>(p@),
            Err(e) => directory_path(match directory { Some(d) => Some(d@), None => None }) == Err::<Seq<char>, SyncErrorView>(e@),
        },
{
    let ghost dv: Option<Seq<char>> = match directory { Some(d) => Some(d@), None => None };
    proof {
        reveal_strlit("tracer-sync");
    }
    let folder: Vec<char> = match directory {
        Some(d) => {
            let t = trim_chars(chars_of(d).as_slice(), Strip::WhiteSpace);
            if t.len() > 0 {
                t
            } else {
                chars_of("tracer-sync")
            }
        },
        None => chars_of("tracer-sync"),
    };
    assert(folder@ == chosen_directory(dv));
    if find_relative_segment(&folder) {
        return Err(network_error("同步目录不能包含相对路径片段"));
    }
    let mut path = trim_chars(folder.as_slice(), Strip::Slash);
    path.push('/');
    assert(path@ =~= trim(folder@, Strip::Slash) + seq!['/']);
    Ok(string_from_chars(path.as_slice()))
}

/// Whether `name` can name a file in the sync directory: it holds no `/` and
/// is not `..`.
pub open spec fn remote_name_ok(name: Seq<char>) -> bool {
    !name.contains('/') && name != ".."@
}

/// Checks a remote file name; a refused one is a `Network` error.
pub fn check_remote_name(name: &str) -> (r: Result<(), SyncError>)
    ensures
        r is Ok <==> remote_name_ok(name@),
        r matches Err(e) ==> e@ == SyncErrorView::Network("远端文件名无效"@),
{
    proof {
        reveal_strlit("..");
    }
    let v = chars_of(name);
    let mut i: usize = 0;
    while i < v.len()
        invariant
            v@ == name@,
            i <= v.len(),
            forall|k: int| 0 <= k < i ==> v@[k] != '/',
        decreases v.len() - i,
    {
        if v[i] == '/' {
            assert(name@.contains('/')) by {
                assert(name@[i as int] == '/');
            }
            return Err(network_error("远端文件名无效"));
        }
        i = i + 1;
    }
    let dots = v.len() == 2 && v[0] == '.' && v[1] == '.';
    if dots {
        assert(name@ =~= ".."@);
        return Err(network_error("远端文件名无效"));
    }
    proof {
        if name@ == ".."@ {
            assert(name@[0] == '.' && name@[1] == '.');
        }
    }
    Ok(())
}

/// Accepts the schemes a WebDAV endpoint may use: `http` and `https`.
pub fn check_scheme(scheme: &str) -> (r: Result<(), SyncError>)
    ensures
        r is Ok <==> (scheme@ == "https"@ || scheme@ == "http"@),
        r matches Err(e) ==> e@ == SyncErrorView::Network("WebDAV 地址必须使用 http:// 或 https://"@),
{
    let s = scheme.to_owned();
    if s != "https".to_owned() && s != "http".to_owned() {
        return Err(network_error("WebDAV 地址必须使用 http:// 或 https://"));
    }
    Ok(())
}

/// Whether `reqwest::Url::parse` (the `url` crate) accepts the text as a URL.
pub uninterp spec fn url_parsed(s: Seq<char>) -> bool;

/// The scheme of the URL that `Url::parse` makes of the text, as `Url::scheme`
/// gives it.
pub uninterp spec fn url_scheme(s: Seq<char>) -> Seq<char>;

/// The path of the URL that `Url::parse` makes of the text, as `Url::path`
/// gives it.
pub uninterp spec fn url_path(s: Seq<char>) -> Seq<char>;

/// The serialised URL that `Url::join` of `rel` makes of the URL parsed from
/// `endpoint`, or `None` when `join` refuses.
pub uninterp spec fn url_joined(endpoint: Seq<char>, rel: Seq<char>) -> Option<Seq<char>>;

/// The serialised URL that `Url::join` of `rel` makes of the URL parsed from
/// `endpoint` after `Url::set_path(path)`, or `None` when `join` refuses.
pub uninterp spec fn url_joined_at(endpoint: Seq<char>, path: Seq<char>, rel: Seq<char>) -> Option<Seq<char>>;

/// Parses with `reqwest::Url::parse` and reads the scheme and the path.
/// Trusted: succeeds exactly when the text is a URL; the error text is the
/// `url` crate's.
#[verifier::external_body]
fn url_parse(s: &str) -> (r: Result<(String, String), String>)
    ensures
        r is Ok <==> url_parsed(s@),
        r matches Ok((scheme, path)) ==> scheme@ == url_scheme(s@) && path@ == url_path(s@),
{
    let url = reqwest::Url::parse(s).map_err(|e| e.to_string())?;
    Ok((url.scheme().to_owned(), url.path().to_owned()))
}

/// `Url::join` of `rel` on the URL parsed from `endpoint`, serialised.
/// Trusted: the result is the one named by `url_joined`; the error text is
/// the `url` crate's.
#[verifier::external_body]
fn url_join(endpoint: &str, rel: &str) -> (r: Result<String, String>)
    requires
        url_parsed(endpoint@),
    ensures
        r is Ok <==> url_joined(endpoint@, rel@) is Some,
        r matches Ok(u) ==> url_joined(endpoint@, rel@) == Some(u@),
{
    let url = reqwest::Url::parse(endpoint).map_err(|e| e.to_string())?;
    url.join(rel).map(|u| u.to_string()).map_err(|e| e.to_string())
}

/// `Url::set_path(path)` then `Url::join` of `rel` on the URL parsed from
/// `endpoint`, serialised. Trusted: the result is the one named by
/// `url_joined_at`; the error text is the `url` crate's.
#[verifier::external_body]
fn url_join_at(endpoint: &str, path: &str, rel: &str) -> (r: Result<String, String>)
    requires
        url_parsed(endpoint@),
    ensures
        r is Ok <==> url_joined_at(endpoint@, path@, rel@) is Some,
        r matches Ok(u) ==> url_joined_at(endpoint@, path@, rel@) == Some(u@),
{
    let mut url = reqwest::Url::parse(endpoint).map_err(|e| e.to_string())?;
    url.set_path(path);
    url.join(rel).map(|u| u.to_string()).map_err(|e| e.to_string())
}

/// The URL of the sync directory, when every step succeeds: the endpoint's
/// path gets a trailing slash when it has none, then the directory path is
/// joined to it.
pub open spec fn base_url_joined(endpoint: Seq<char>, dir: Seq<char>) -> Option<Seq<char>> {
    let path = url_path(endpoint);
    if path.len() > 0 && path.last() == '/' {
        url_joined(endpoint, dir)
    } else {
        url_joined_at(endpoint, path + seq!['/'], dir)
    }
}

/// The URL of the sync directory on a WebDAV server: the endpoint must
/// parse as an `http` or `https` URL; its path gets a trailing slash, and
/// the sync directory (see `sync_directory`) is joined to it.
pub fn sync_base_url(endpoint: &str, directory: Option<&str>) -> (r: Result<String, SyncError>)
    ensures
        !url_parsed(endpoint@) ==> (r matches Err(e) && e matches SyncError::Network(m)
            && "WebDAV 地址无效: "@.is_prefix_of(m@)),
        url_parsed(endpoint@) && !(url_scheme(endpoint@) == "https"@ || url_scheme(endpoint@) == "http"@)
            ==> (r matches Err(e) && e@ == SyncErrorView::Network("WebDAV 地址必须使用 http:// 或 https://"@)),
        url_parsed(endpoint@) && (url_scheme(endpoint@) == "https"@ || url_scheme(endpoint@) == "http"@) ==> match
            directory_path(match directory { Some(d) => Some(d@), None => None }) {
            Err(x) => r matches Err(e) && e@ == x,
            Ok(dir) => match base_url_joined(endpoint@, dir) {
                Some(u) => r matches Ok(b) && b@ == u,
                None => r matches Err(e) && e matches SyncError::Network(m) && "同步目录无效: "@.is_prefix_of(m@),
            },
        },
{
    let (scheme, path) = match url_parse(endpoint) {
        Ok(p) => p,
        Err(m) => {
            let text = "WebDAV 地址无效: ".to_owned().concat(m.as_str());
            proof {
                assert(text@.subrange(0, "WebDAV 地址无效: "@.len() as int) =~= "WebDAV 地址无效: "@);
            }
            return Err(SyncError::Network(text));
        },
    };
    match check_scheme(scheme.as_str()) {
        Err(e) => {
            return Err(e);
        },
        Ok(()) => {},
    }
    let folder = match sync_directory(directory) {
        Ok(f) => f,
        Err(e) => {
            return Err(e);
        },
    };
    let pc = chars_of(path.as_str());
    let ends_slash = pc.len() > 0 && pc[pc.len() - 1] == '/';
    assert(ends_slash == (path@.len() > 0 && path@.last() == '/'));
    let joined = if ends_slash {
        url_join(endpoint, folder.as_str())
    } else {
        proof {
            reveal_strlit("/");
        }
        let slashed = path.concat("/");
        assert(slashed@ =~= path@ + seq!['/']);
        url_join_at(endpoint, slashed.as_str(), folder.as_str())
    };
    match joined {
        Ok(u) => Ok(u),
        Err(m) => {
            let text = "同步目录无效: ".to_owned().concat(m.as_str());
            proof {
                assert(text@.subrange(0, "同步目录无效: "@.len() as int) =~= "同步目录无效: "@);
            }
            Err(SyncError::Network(text))
        },
    }
}

/// The text of a failed WebDAV request: the action and the HTTP status code.
pub open spec fn status_message(action: Seq<char>, status: u16) -> Seq<char> {
    "WebDAV "@ + action + "失败: HTTP "@ + decimal_text(status as int)
}

/// The `Network` error for a request that the server answered with an
/// unexpected status.
pub fn status_error(action: &str, status: u16) -> (e: SyncError)
    ensures
        e@ == SyncErrorView::Network(status_message(action@, status)),
{
    let text = "WebDAV ".to_owned();
    let text = text.concat(action);
    let text = text.concat("失败: HTTP ");
    let code = decimal_string(status as i64);
    let text = text.concat(code.as_str());
    SyncError::Network(text)
}

/// The pieces of `s` from `pos` on between occurrences of `sep`, as
/// `str::split` yields them.
pub open spec fn split_from(s: Seq<char>, sep: Seq<char>, pos: int) -> Seq<Seq<char>>
    decreases s.len() - pos,
{
    if sep.len() == 0 || pos < 0 || pos > s.len() {
        seq![s.subrange(pos, s.len() as int)]
    } else {
        match find_spec(s, sep, pos) {
            Some(i) => if pos <= i && i + sep.len() <= s.len() {
                seq![s.subrange(pos, i)] + split_from(s, sep, i + sep.len())
            } else {
                seq![s.subrange(pos, s.len() as int)]
            },
            None => seq![s.subrange(pos, s.len() as int)],
        }
    }
}

/// `%20` escapes read as spaces (`str::replace("%20", " ")`).
pub open spec fn unescape_spaces(s: Seq<char>) -> Seq<char>
    decreases s.len(),
{
    if s.len() >= 3 && s[0] == '%' && s[1] == '2' && s[2] == '0' {
        seq![' '] + unescape_spaces(s.subrange(3, s.len() as int))
    } else if s.len() == 0 {
        s
    } else {
        seq![s[0]] + unescape_spaces(s.subrange(1, s.len() as int))
    }
}

/// What follows the last `/` of `s` (all of it when there is none).
pub open spec fn after_last_slash(s: Seq<char>) -> Seq<char>
    decreases s.len(),
{
    if s.len() == 0 {
        s
    } else if s.last() == '/' {
        Seq::<char>::empty()
    } else {
        after_last_slash(s.drop_last()).push(s.last())
    }
}

/// The file name a piece of a directory listing gives: the text after its
/// first `href>`, unescaped, without trailing slashes, after its last slash;
/// none when the piece has no `href>` or the name is empty.
pub open spec fn href_name(part: Seq<char>) -> Option<Seq<char>> {
    match find_spec(part, "href>"@, 0) {
        None => None,
        Some(i) => {
            let name = after_last_slash(trim_end(unescape_spaces(part.subrange(i + "href>"@.len(), part.len() as int)), Strip::Slash));
            if name.len() == 0 { None } else { Some(name) }
        },
    }
}

/// The names of the pieces, in order.
pub open spec fn href_names_of(parts: Seq<Seq<char>>) -> Seq<Seq<char>>
    decreases parts.len(),
{
    if parts.len() == 0 {
        Seq::<Seq<char>>::empty()
    } else {
        let rest = href_names_of(parts.drop_last());
        match href_name(parts.last()) {
            Some(n) => rest.push(n),
            None => rest,
        }
    }
}

/// The names found in a WebDAV listing (a multistatus document cut at each
/// closing tag).
pub open spec fn listing_names(xml: Seq<char>) -> Seq<Seq<char>> {
    href_names_of(split_from(xml, "</"@, 0))
}

pub open spec fn string_views(v: Seq<String>) -> Seq<Seq<char>> {
    v.map_values(|s: String| s@)
}

/// Strictly increasing in code-point order.
pub open spec fn strictly_sorted(v: Seq<Seq<char>>) -> bool {
    forall|i: int, j: int| 0 <= i < j < v.len() ==> chars_lt(#[trigger] v[i], #[trigger] v[j])
}

fn unescape_chars(v: &Vec<char>, from: usize) -> (r: Vec<char>)
    requires
        from <= v@.len(),
    ensures
        r@ == unescape_spaces(v@.subrange(from as int, v@.len() as int)),
{
    let n = v.len();
    let mut out: Vec<char> = Vec::new();
    let mut i: usize = from;
    while i < n
        invariant
            n == v@.len(),
            from <= i <= n,
            out@ + unescape_spaces(v@.subrange(i as int, n as int)) == unescape_spaces(v@.subrange(from as int, n as int)),
        decreases n - i,
    {
        let ghost rest = v@.subrange(i as int, n as int);
        if n - i >= 3 && v[i] == '%' && v[i + 1] == '2' && v[i + 2] == '0' {
            proof {
                assert(rest[0] == '%' && rest[1] == '2' && rest[2] == '0');
                assert(rest.subrange(3, rest.len() as int) =~= v@.subrange(i + 3, n as int));
                assert(out@.push(' ') + unescape_spaces(v@.subrange(i + 3, n as int)) =~= out@ + unescape_spaces(rest));
            }
            out.push(' ');
            i = i + 3;
        } else {
            proof {
                assert(rest[0] == v@[i as int]);
                assert(rest.subrange(1, rest.len() as int) =~= v@.subrange(i + 1, n as int));
                assert(out@.push(v@[i as int]) + unescape_spaces(v@.subrange(i + 1, n as int)) =~= out@ + unescape_spaces(rest));
            }
            out.push(v[i]);
            i = i + 1;
        }
    }
    proof {
        assert(v@.subrange(n as int, n as int).len() == 0);
        assert(out@ + Seq::<char>::empty() =~= out@);
    }
    out
}

fn after_last_slash_chars(v: &Vec<char>) -> (r: Vec<char>)
    ensures
        r@ == after_last_slash(v@),
{
    let mut start: usize = 0;
    let mut i: usize = 0;
    while i < v.len()
        invariant
            start <= i <= v@.len(),
            after_last_slash(v@.take(i as int)) == v@.subrange(start as int, i as int),
        decreases v.len() - i,
    {
        proof {
            assert(v@.take(i + 1).drop_last() =~= v@.take(i as int));
            assert(v@.take(i + 1).last() == v@[i as int]);
        }
        if v[i] == '/' {
            start = i + 1;
            assert(v@.subrange(start as int, i + 1) =~= Seq::<char>::empty());
        } else {
            assert(v@.subrange(start as int, i + 1) =~= v@.subrange(start as int, i as int).push(v@[i as int]));
        }
        i = i + 1;
    }
    assert(v@.take(i as int) =~= v@);
    let mut out: Vec<char> = Vec::new();
    let mut k: usize = start;
    while k < v.len()
        invariant
            start <= k <= v@.len(),
            out@ == v@.subrange(start as int, k as int),
        decreases v.len() - k,
    {
        out.push(v[k]);
        k = k + 1;
        assert(out@ =~= v@.subrange(start as int, k as int));
    }
    out
}

fn part_name(v: &Vec<char>, from: usize, to: usize) -> (r: Option<Vec<char>>)
    requires
        from <= to <= v@.len(),
    ensures
        match r {
            Some(n) => href_name(v@.subrange(from as int, to as int)) == Some(n@),
            None => href_name(v@.subrange(from as int, to as int)) is None,
        },
{
    let mut part: Vec<char> = Vec::new();
    let mut k: usize = from;
    while k < to
        invariant
            from <= k <= to,
            to <= v@.len(),
            part@ == v@.subrange(from as int, k as int),
        decreases to - k,
    {
        part.push(v[k]);
        k = k + 1;
        assert(part@ =~= v@.subrange(from as int, k as int));
    }
    let marker = chars_of("href>");
    let i = match find_from(&part, &marker, 0) {
        Some(i) => i,
        None => {
            return None;
        },
    };
    let n = part.len();
    assert(i + marker@.len() <= n);
    let value = unescape_chars(&part, i + marker.len());
    let trimmed = crate::text::trim_end_chars(value.as_slice(), Strip::Slash);
    let name = after_last_slash_chars(&trimmed);
    if name.len() == 0 {
        None
    } else {
        Some(name)
    }
}

/// Adds `name` to the strictly sorted `out` unless it is already there.
fn insert_sorted_unique(out: &mut Vec<String>, name: String)
    requires
        strictly_sorted(string_views(old(out)@)),
    ensures
        strictly_sorted(string_views(final(out)@)),
        forall|x: Seq<char>| string_views(final(out)@).contains(x) <==> (string_views(old(out)@).contains(x) || x == name@),
{
    proof {
        lemma_chars_lt_order();
    }
    let ghost before = string_views(out@);
    let mut p: usize = 0;
    while p < out.len() && compare_str(out[p].as_str(), name.as_str()) == Rank::Before
        invariant
            p <= out@.len(),
            out@ == old(out)@,
            before == string_views(out@),
            forall|k: int| 0 <= k < p ==> chars_lt(#[trigger] before[k], name@),
        decreases out.len() - p,
    {
        p = p + 1;
    }
    if p < out.len() && compare_str(out[p].as_str(), name.as_str()) == Rank::Same {
        proof {
            assert(before[p as int] == name@);
            assert forall|x: Seq<char>| string_views(out@).contains(x) <==> (before.contains(x) || x == name@) by {
                if x == name@ {
                    assert(before[p as int] == x);
                }
            }
        }
        return;
    }
    let ghost nv = name@;
    out.insert(p, name);
    proof {
        let after = string_views(out@);
        assert(after =~= before.subrange(0, p as int).push(nv) + before.subrange(p as int, before.len() as int));
        if p < before.len() {
            assert(chars_lt(nv, before[p as int]));
        }
        assert forall|i: int, j: int| 0 <= i < j < after.len() implies chars_lt(#[trigger] after[i], #[trigger] after[j]) by {
            if j < p {
                assert(after[i] == before[i] && after[j] == before[j]);
            } else if j == p {
                assert(after[i] == before[i]);
            } else if i < p {
                assert(after[i] == before[i] && after[j] == before[j - 1]);
                assert(chars_lt(before[i], nv));
                if j - 1 > p {
                    assert(chars_lt(before[p as int], before[j - 1]));
                }
                assert(chars_lt(nv, before[j - 1]));
            } else if i == p {
                assert(after[i] == nv && after[j] == before[j - 1]);
                if j - 1 > p {
                    assert(chars_lt(before[p as int], before[j - 1]));
                }
            } else {
                assert(after[i] == before[i - 1] && after[j] == before[j - 1]);
            }
        }
        assert forall|x: Seq<char>| after.contains(x) <==> (before.contains(x) || x == nv) by {
            if before.contains(x) {
                let k = choose|k: int| 0 <= k < before.len() && before[k] == x;
                if k < p {
                    assert(after[k] == x);
                } else {
                    assert(after[k + 1] == x);
                }
            }
            if x == nv {
                assert(after[p as int] == x);
            }
            if after.contains(x) {
                let k = choose|k: int| 0 <= k < after.len() && after[k] == x;
                if k < p {
                    assert(before[k] == x);
                } else if k > p {
                    assert(before[k - 1] == x);
                }
            }
        }
    }
}

/// The file names in a WebDAV directory listing, sorted and without
/// repeats.
pub fn href_names(xml: &str) -> (r: Vec<String>)
    ensures
        strictly_sorted(string_views(r@)),
        forall|x: Seq<char>| string_views(r@).contains(x) <==> listing_names(xml@).contains(x),
{
    let v = chars_of(xml);
    let sep = chars_of("</");
    let ghost sepv = "</"@;
    proof {
        reveal_strlit("</");
    }
    let mut out: Vec<String> = Vec::new();
    let mut pos: usize = 0;
    let ghost mut done: Seq<Seq<char>> = Seq::empty();
    loop
        invariant_except_break
            v@ == xml@,
            sep@ == sepv,
            sepv == "</"@,
            sepv.len() == 2,
            pos <= v@.len(),
            split_from(xml@, sepv, 0) == done + split_from(xml@, sepv, pos as int),
            strictly_sorted(string_views(out@)),
            forall|x: Seq<char>| string_views(out@).contains(x) <==> href_names_of(done).contains(x),
        ensures
            strictly_sorted(string_views(out@)),
            forall|x: Seq<char>| string_views(out@).contains(x) <==> listing_names(xml@).contains(x),
        decreases v@.len() - pos,
    {
        let found = find_from(&v, &sep, pos);
        let end = match found {
            Some(i) => i,
            None => v.len(),
        };
        proof {
            if found is Some {
                assert(pos <= end && end + 2 <= v@.len());
            }
        }
        let name = part_name(&v, pos, end);
        let ghost part = v@.subrange(pos as int, end as int);
        let ghost old_done = done;
        proof {
            done = done.push(part);
            assert(done.drop_last() =~= old_done);
            assert(done.last() == part);
        }
        match name {
            Some(n) => {
                let s = string_from_chars(n.as_slice());
                insert_sorted_unique(&mut out, s);
            },
            None => {},
        }
        proof {
            assert forall|x: Seq<char>| string_views(out@).contains(x) <==> href_names_of(done).contains(x) by {
                if href_name(part) is Some {
                    let nn = href_name(part)->Some_0;
                    assert(href_names_of(done) == href_names_of(old_done).push(nn));
                    if href_names_of(done).contains(x) && x != nn {
                        let k = choose|k: int| 0 <= k < href_names_of(done).len() && href_names_of(done)[k] == x;
                        assert(href_names_of(old_done)[k] == x);
                    }
                    if href_names_of(old_done).contains(x) {
                        let k = choose|k: int| 0 <= k < href_names_of(old_done).len() && href_names_of(old_done)[k] == x;
                        assert(href_names_of(done)[k] == x);
                    }
                    if x == nn {
                        assert(href_names_of(done).last() == x);
                    }
                } else {
                    assert(href_names_of(done) == href_names_of(old_done));
                }
            }
        }
        match found {
            Some(i) => {
                let n = v.len();
                assert(i + sep@.len() <= n);
                proof {
                    assert(split_from(xml@, sepv, pos as int) == seq![part] + split_from(xml@, sepv, i + 2));
                    assert(done + split_from(xml@, sepv, i + 2) =~= old_done + (seq![part] + split_from(xml@, sepv, i + 2)));
                }
                pos = i + 2;
            },
            None => {
                proof {
                    assert(split_from(xml@, sepv, pos as int) == seq![part]);
                    assert(done =~= old_done + seq![part]);
                    assert(split_from(xml@, sepv, 0) == done);
                    assert(listing_names(xml@) == href_names_of(done));
                }
                break;
            },
        }
    }
    out
}

/// What the concurrency probe learned at its last step.
#[derive(Debug, Clone, Copy, PartialEq, Eq, Structural)]
pub enum ProbeEvent {
    /// The probe file was read back, with or without an entity tag.
    Read { has_etag: bool },
    /// A write conditional on that tag succeeded or not.
    SecondWrite { ok: bool },
    /// A second write with the now outdated tag was refused as a conflict.
    ThirdWrite { conflict: bool },
    /// A lock was taken and returned a lock token, or not.
    Locked { token: bool },
}

/// What the probe does next.
#[derive(Debug, Clone, Copy, PartialEq, Eq, Structural)]
pub enum ProbeAction {
    SecondWrite,
    ThirdWrite,
    TryLock,
    Finish(ConcurrencyMode),
}

/// The probe's next step: entity tags are used when a write with the read
/// tag succeeds and a second one with the same, now outdated, tag is
/// refused; otherwise locks when a lock returns a token; otherwise neither.
pub fn probe_next(event: ProbeEvent) -> (r: ProbeAction)
    ensures
        r == match event {
            ProbeEvent::Read { has_etag } => if has_etag { ProbeAction::SecondWrite } else { ProbeAction::TryLock },
            ProbeEvent::SecondWrite { ok } => if ok { ProbeAction::ThirdWrite } else { ProbeAction::TryLock },
            ProbeEvent::ThirdWrite { conflict } => if conflict { ProbeAction::Finish(ConcurrencyMode::Etag) } else { ProbeAction::TryLock },
            ProbeEvent::Locked { token } => if token { ProbeAction::Finish(ConcurrencyMode::Lock) } else { ProbeAction::Finish(ConcurrencyMode::Plain) },
        },
{
    match event {
        ProbeEvent::Read { has_etag } => if has_etag { ProbeAction::SecondWrite } else { ProbeAction::TryLock },
        ProbeEvent::SecondWrite { ok } => if ok { ProbeAction::ThirdWrite } else { ProbeAction::TryLock },
        ProbeEvent::ThirdWrite { conflict } => if conflict { ProbeAction::Finish(ConcurrencyMode::Etag) } else { ProbeAction::TryLock },
        ProbeEvent::Locked { token } => if token { ProbeAction::Finish(ConcurrencyMode::Lock) } else { ProbeAction::Finish(ConcurrencyMode::Plain) },
    }
}

} // verus!
