use vstd::prelude::*;

use crate::store::{eq_ignore_ascii_case, eq_ignore_ascii_case_spec, trim, trim_of};
use crate::text::{
    decimal, find_first, first_index_of, starts_with_chars, str_chars, string_of_chars, sub_chars,
};

verus! {

/// The text that stands for `c` in HTML attribute values and text.
pub open spec fn html_escape_char(c: char) -> Seq<char> {
    if c == '&' {
        seq!['&', 'a', 'm', 'p', ';']
    } else if c == '"' {
        seq!['&', 'q', 'u', 'o', 't', ';']
    } else if c == '<' {
        seq!['&', 'l', 't', ';']
    } else if c == '>' {
        seq!['&', 'g', 't', ';']
    } else {
        seq![c]
    }
}

/// `s` with `&`, `"`, `<` and `>` escaped as entities.
pub open spec fn escape_html_spec(s: Seq<char>) -> Seq<char>
    decreases s.len(),
{
    if s.len() == 0 {
        Seq::empty()
    } else {
        escape_html_spec(s.drop_last()) + html_escape_char(s.last())
    }
}

fn push_all(out: &mut Vec<char>, add: Vec<char>)
    ensures
        final(out)@ == old(out)@ + add@,
{
    let mut i: usize = 0;
    let ghost start = out@;
    while i < add.len()
        invariant
            i <= add.len(),
            out@ == start + add@.subrange(0, i as int),
        decreases add.len() - i,
    {
        out.push(add[i]);
        i = i + 1;
        assert(out@ =~= start + add@.subrange(0, i as int));
    }
    assert(add@.subrange(0, add@.len() as int) =~= add@);
}

fn escape_char(c: char) -> (r: Vec<char>)
    ensures
        r@ == html_escape_char(c),
{
    if c == '&' {
        vec!['&', 'a', 'm', 'p', ';']
    } else if c == '"' {
        vec!['&', 'q', 'u', 'o', 't', ';']
    } else if c == '<' {
        vec!['&', 'l', 't', ';']
    } else if c == '>' {
        vec!['&', 'g', 't', ';']
    } else {
        vec![c]
    }
}

/// Escapes text for HTML.
pub fn escape_html(s: &str) -> (r: String)
    ensures
        r@ == escape_html_spec(s@),
{
    let cs = str_chars(s);
    let mut out: Vec<char> = Vec::new();
    let mut i: usize = 0;
    assert(cs@.subrange(0, 0) =~= Seq::<char>::empty());
    while i < cs.len()
        invariant
            i <= cs.len(),
            cs@ == s@,
            out@ == escape_html_spec(cs@.subrange(0, i as int)),
        decreases cs.len() - i,
    {
        assert(cs@.subrange(0, i + 1).drop_last() =~= cs@.subrange(0, i as int));
        push_all(&mut out, escape_char(cs[i]));
        i = i + 1;
    }
    assert(cs@.subrange(0, cs@.len() as int) =~= cs@);
    string_of_chars(out.as_slice())
}

/// `s` without the slashes at its end.
pub open spec fn trim_trailing_slashes(s: Seq<char>) -> Seq<char>
    decreases s.len(),
{
    if s.len() > 0 && s.last() == '/' {
        trim_trailing_slashes(s.drop_last())
    } else {
        s
    }
}

/// An origin and a path joined with exactly the path's own leading slash
/// when the origin ends in slashes.
pub open spec fn join_url_spec(origin: Seq<char>, path: Seq<char>) -> Seq<char> {
    if origin.len() > 0 && origin.last() == '/' {
        trim_trailing_slashes(origin) + path
    } else {
        origin + path
    }
}

/// Joins an origin and a path.
pub fn join_url(origin: &str, path: &str) -> (r: String)
    ensures
        r@ == join_url_spec(origin@, path@),
{
    let cs = str_chars(origin);
    let mut n: usize = cs.len();
    assert(cs@.subrange(0, n as int) =~= cs@);
    while n > 0 && cs[n - 1] == '/'
        invariant
            n <= cs.len(),
            trim_trailing_slashes(cs@) == trim_trailing_slashes(cs@.subrange(0, n as int)),
        decreases n,
    {
        assert(cs@.subrange(0, n as int).drop_last() =~= cs@.subrange(0, n - 1));
        n = n - 1;
    }
    let mut out = string_of_chars(sub_chars(&cs, 0, n).as_slice());
    out.append(path);
    out
}

/// Whether `s` holds `://` at position `j`.
pub open spec fn is_scheme_sep_at(s: Seq<char>, j: int) -> bool {
    0 <= j && j + 3 <= s.len() && s[j] == ':' && s[j + 1] == '/' && s[j + 2] == '/'
}

/// Whether the host part of a URL ends at position `j`.
pub open spec fn ends_host_at(s: Seq<char>, j: int) -> bool {
    s[j] == '/' || is_scheme_sep_at(s, j)
}

/// The first position below `n` where `f` holds.
pub open spec fn first_where(n: int, f: spec_fn(int) -> bool) -> Option<int> {
    if exists|i: int| 0 <= i < n && #[trigger] f(i) {
        Some(choose|i: int| 0 <= i < n && #[trigger] f(i) && forall|j: int| 0 <= j < i ==> !#[trigger] f(j))
    } else {
        None
    }
}

proof fn lemma_first_where(n: int, f: spec_fn(int) -> bool, i: int)
    requires
        0 <= i < n,
        f(i),
        forall|j: int| 0 <= j < i ==> !#[trigger] f(j),
    ensures
        first_where(n, f) == Some(i),
{
    assert(exists|k: int| 0 <= k < n && #[trigger] f(k) && forall|j: int| 0 <= j < k ==> !#[trigger] f(j));
    let k = choose|k: int| 0 <= k < n && #[trigger] f(k) && forall|j: int| 0 <= j < k ==> !#[trigger] f(j);
    if k < i {
        assert(!f(k));
    }
    if i < k {
        assert(!f(i));
    }
}

/// The host of a URL: what follows the first `://` up to the next `/` or
/// `://`, trimmed; `None` when there is no `://` or the host is blank.
pub open spec fn host_from_url_spec(u: Seq<char>) -> Option<Seq<char>> {
    match first_where(u.len() as int, |j: int| is_scheme_sep_at(u, j)) {
        None => None,
        Some(p) => {
            let after = u.subrange(p + 3, u.len() as int);
            let end = match first_where(after.len() as int, |j: int| ends_host_at(after, j)) {
                Some(e) => e,
                None => after.len() as int,
            };
            let host = trim_of(after.subrange(0, end));
            if host.len() == 0 {
                None
            } else {
                Some(host)
            }
        },
    }
}

fn scheme_sep_at(s: &Vec<char>, j: usize) -> (r: bool)
    ensures
        r == is_scheme_sep_at(s@, j as int),
{
    j < s.len() && s.len() - j >= 3 && s[j] == ':' && s[j + 1] == '/' && s[j + 2] == '/'
}

fn find_scheme_sep(cs: &Vec<char>) -> (r: Option<usize>)
    ensures
        r matches Some(p) ==> p + 3 <= cs@.len(),
        first_where(cs@.len() as int, |j: int| is_scheme_sep_at(cs@, j)) == (match r {
            Some(p) => Some(p as int),
            None => None::<int>,
        }),
{
    let mut p: usize = 0;
    while p < cs.len()
        invariant
            p <= cs.len(),
            forall|j: int| 0 <= j < p ==> !is_scheme_sep_at(cs@, j),
        decreases cs.len() - p,
    {
        if scheme_sep_at(cs, p) {
            proof {
                lemma_first_where(cs@.len() as int, |j: int| is_scheme_sep_at(cs@, j), p as int);
            }
            return Some(p);
        }
        p = p + 1;
    }
    assert(first_where(cs@.len() as int, |j: int| is_scheme_sep_at(cs@, j)) is None);
    None
}

fn find_host_end(after: &Vec<char>) -> (r: usize)
    ensures
        r <= after@.len(),
        r == match first_where(after@.len() as int, |j: int| ends_host_at(after@, j)) {
            Some(e) => e,
            None => after@.len() as int,
        },
{
    let mut e: usize = 0;
    while e < after.len()
        invariant
            e <= after.len(),
            forall|j: int| 0 <= j < e ==> !ends_host_at(after@, j),
        decreases after.len() - e,
    {
        if after[e] == '/' || scheme_sep_at(after, e) {
            proof {
                lemma_first_where(after@.len() as int, |j: int| ends_host_at(after@, j), e as int);
            }
            return e;
        }
        e = e + 1;
    }
    assert(first_where(after@.len() as int, |j: int| ends_host_at(after@, j)) is None);
    e
}

/// The host named by a URL.
pub fn host_from_url(u: &str) -> (r: Option<String>)
    ensures
        r matches Some(h) ==> host_from_url_spec(u@) == Some(h@),
        r is None ==> host_from_url_spec(u@) is None,
{
    let cs = str_chars(u);
    let p = match find_scheme_sep(&cs) {
        None => return None,
        Some(p) => p,
    };
    let n = cs.len();
    assert(p + 3 <= n);
    let after = sub_chars(&cs, p + 3, n);
    let e = find_host_end(&after);
    let seg = string_of_chars(sub_chars(&after, 0, e).as_slice());
    let host = trim(seg.as_str());
    assert(host@ == trim_of(u@.subrange(p + 3, u@.len() as int).subrange(0, e as int)));
    if host.is_empty() {
        None
    } else {
        Some(string_of_chars(str_chars(host).as_slice()))
    }
}

/// `<proto>://<host>`: the forwarded protocol and host when they came, else
/// the connection's own.
pub fn get_origin(
    forwarded_proto: Option<&str>,
    scheme: &str,
    forwarded_host: Option<&str>,
    host: &str,
) -> (r: String)
    ensures
        r@ == (match forwarded_proto {
            Some(p) => p@,
            None => scheme@,
        }) + seq![':', '/', '/'] + (match forwarded_host {
            Some(h) => h@,
            None => host@,
        }),
{
    let proto = match forwarded_proto {
        Some(p) => p,
        None => scheme,
    };
    let h = match forwarded_host {
        Some(h) => h,
        None => host,
    };
    let mut out = string_of_chars(str_chars(proto).as_slice());
    out.append(string_of_chars(vec![':', '/', '/'].as_slice()).as_str());
    out.append(h);
    out
}

pub open spec fn http_prefix() -> Seq<char> {
    seq!['h', 't', 't', 'p', ':', '/', '/']
}

pub open spec fn https_prefix() -> Seq<char> {
    seq!['h', 't', 't', 'p', 's', ':', '/', '/']
}

/// The origin with `http://` turned into `https://` when the request came
/// over HTTPS or the server has TLS configured.
pub open spec fn prefer_https_spec(origin: Seq<char>, proto: Option<Seq<char>>, tls: bool) -> Seq<
    char,
> {
    let https_possible = match proto {
        Some(p) => eq_ignore_ascii_case_spec(p, seq!['h', 't', 't', 'p', 's']),
        None => false,
    } || tls;
    if https_possible && http_prefix().len() <= origin.len() && origin.subrange(0, 7)
        == http_prefix() {
        https_prefix() + origin.subrange(7, origin.len() as int)
    } else {
        origin
    }
}

/// Prefers the HTTPS form of an origin when HTTPS is available.
pub fn prefer_https_origin(origin: &str, forwarded_proto: Option<&str>, tls: bool) -> (r: String)
    ensures
        r@ == prefer_https_spec(
            origin@,
            match forwarded_proto {
                Some(p) => Some(p@),
                None => None,
            },
            tls,
        ),
{
    let https = string_of_chars(vec!['h', 't', 't', 'p', 's'].as_slice());
    let via_proto = match forwarded_proto {
        Some(p) => eq_ignore_ascii_case(p, https.as_str()),
        None => false,
    };
    let cs = str_chars(origin);
    let http: Vec<char> = vec!['h', 't', 't', 'p', ':', '/', '/'];
    if (via_proto || tls) && starts_with_chars(&cs, &http) {
        let mut out = string_of_chars(vec!['h', 't', 't', 'p', 's', ':', '/', '/'].as_slice());
        out.append(string_of_chars(sub_chars(&cs, 7, cs.len()).as_slice()).as_str());
        out
    } else {
        string_of_chars(cs.as_slice())
    }
}

/// `s` cut at every `c`.
pub open spec fn split_on(s: Seq<char>, c: char) -> Seq<Seq<char>>
    decreases s.len(),
{
    match first_index_of(s, c) {
        None => seq![s],
        Some(i) => if 0 <= i < s.len() {
            seq![s.subrange(0, i)] + split_on(s.subrange(i + 1, s.len() as int), c)
        } else {
            seq![s]
        },
    }
}

/// The name and value of one `name=value` cookie pair.
pub open spec fn cookie_pair(part: Seq<char>) -> (Seq<char>, Seq<char>) {
    let t = trim_of(part);
    match first_index_of(t, '=') {
        None => (trim_of(t), Seq::empty()),
        Some(i) => if 0 <= i < t.len() {
            (trim_of(t.subrange(0, i)), t.subrange(i + 1, t.len() as int))
        } else {
            (trim_of(t), Seq::empty())
        },
    }
}

/// The value of the first pair named `name`.
pub open spec fn cookie_lookup(parts: Seq<Seq<char>>, name: Seq<char>) -> Option<Seq<char>>
    decreases parts.len(),
{
    if parts.len() == 0 {
        None
    } else if cookie_pair(parts[0]).0 == name {
        Some(cookie_pair(parts[0]).1)
    } else {
        cookie_lookup(parts.drop_first(), name)
    }
}

pub open spec fn get_cookie_spec(header: Seq<char>, name: Seq<char>) -> Option<Seq<char>> {
    cookie_lookup(split_on(header, ';'), name)
}

fn pair_of(part: &Vec<char>) -> (r: (String, String))
    ensures
        r.0@ == cookie_pair(part@).0,
        r.1@ == cookie_pair(part@).1,
{
    let whole = string_of_chars(part.as_slice());
    let t = str_chars(trim(whole.as_str()));
    match find_first(&t, '=') {
        None => {
            let ts = string_of_chars(t.as_slice());
            let k = trim(ts.as_str());
            (string_of_chars(str_chars(k).as_slice()), String::new())
        },
        Some(i) => {
            let n = t.len();
            let ks = string_of_chars(sub_chars(&t, 0, i).as_slice());
            let k = trim(ks.as_str());
            (string_of_chars(str_chars(k).as_slice()), string_of_chars(sub_chars(&t, i + 1, n).as_slice()))
        },
    }
}

/// The value of cookie `name` in a `Cookie` header.
pub fn get_cookie(header: &str, name: &str) -> (r: Option<String>)
    ensures
        r matches Some(v) ==> get_cookie_spec(header@, name@) == Some(v@),
        r is None ==> get_cookie_spec(header@, name@) is None,
{
    let key = string_of_chars(str_chars(name).as_slice());
    let mut rest = str_chars(header);
    loop
        invariant
            key@ == name@,
            get_cookie_spec(header@, name@) == cookie_lookup(split_on(rest@, ';'), name@),
        decreases rest@.len(),
    {
        match find_first(&rest, ';') {
            None => {
                let (k, v) = pair_of(&rest);
                assert(split_on(rest@, ';') =~= seq![rest@]);
                assert(seq![rest@].drop_first() =~= Seq::<Seq<char>>::empty());
                if k == key {
                    return Some(v);
                }
                assert(cookie_pair(seq![rest@][0]).0 != name@);
                assert(cookie_lookup(Seq::<Seq<char>>::empty(), name@) is None);
                assert(cookie_lookup(seq![rest@], name@) == cookie_lookup(
                    seq![rest@].drop_first(),
                    name@,
                ));
                return None;
            },
            Some(i) => {
                let n = rest.len();
                let part = sub_chars(&rest, 0, i);
                let tail = sub_chars(&rest, i + 1, n);
                let ghost parts = split_on(rest@, ';');
                assert(parts[0] == part@);
                assert(parts.drop_first() =~= split_on(tail@, ';'));
                let (k, v) = pair_of(&part);
                if k == key {
                    return Some(v);
                }
                rest = tail;
            },
        }
    }
}

pub open spec fn host_of_url_opt(u: Option<Seq<char>>) -> Option<Seq<char>> {
    match u {
        Some(x) => host_from_url_spec(x),
        None => None,
    }
}

pub open spec fn resolve_origin_spec(
    configured: Option<Seq<char>>,
    tls: bool,
    http_port: u16,
    https_port: u16,
    host_header: Option<Seq<char>>,
    origin_header: Option<Seq<char>>,
    referer: Option<Seq<char>>,
) -> Seq<char> {
    let conf = match configured {
        Some(c) => trim_trailing_slashes(trim_of(c)),
        None => Seq::empty(),
    };
    if conf.len() > 0 {
        conf
    } else {
        let scheme = if tls {
            https_prefix()
        } else {
            http_prefix()
        };
        let from_header = match host_header {
            Some(h) => if trim_of(h).len() > 0 {
                Some(trim_of(h))
            } else {
                None
            },
            None => None,
        };
        let host = match from_header {
            Some(h) => h,
            None => match host_of_url_opt(origin_header) {
                Some(h) => h,
                None => match host_of_url_opt(referer) {
                    Some(h) => h,
                    None => seq!['l', 'o', 'c', 'a', 'l', 'h', 'o', 's', 't', ':'] + decimal(
                        (if tls {
                            https_port
                        } else {
                            http_port
                        }) as nat,
                    ),
                },
            },
        };
        scheme + host
    }
}

fn url_host(u: Option<&str>) -> (r: Option<String>)
    ensures
        r matches Some(h) ==> host_of_url_opt(
            match u {
                Some(x) => Some(x@),
                None => None,
            },
        ) == Some(h@),
        r is None ==> host_of_url_opt(
            match u {
                Some(x) => Some(x@),
                None => None,
            },
        ) is None,
{
    match u {
        Some(x) => host_from_url(x),
        None => None,
    }
}

/// The public origin of the service: the configured one without trailing
/// slashes, else `http(s)://` and the first host found in the host headers,
/// the `Origin` URL, the `Referer` URL, or `localhost:<port>`.
pub fn resolve_public_origin(
    configured: Option<&str>,
    tls: bool,
    http_port: u16,
    https_port: u16,
    host_header: Option<&str>,
    origin_header: Option<&str>,
    referer: Option<&str>,
) -> (r: String)
    ensures
        r@ == resolve_origin_spec(
            match configured {
                Some(c) => Some(c@),
                None => None,
            },
            tls,
            http_port,
            https_port,
            match host_header {
                Some(h) => Some(h@),
                None => None,
            },
            match origin_header {
                Some(h) => Some(h@),
                None => None,
            },
            match referer {
                Some(h) => Some(h@),
                None => None,
            },
        ),
{
    match configured {
        Some(c) => {
            let cs = str_chars(trim(c));
            let mut n: usize = cs.len();
            assert(cs@.subrange(0, n as int) =~= cs@);
            while n > 0 && cs[n - 1] == '/'
                invariant
                    n <= cs.len(),
                    trim_trailing_slashes(cs@) == trim_trailing_slashes(cs@.subrange(0, n as int)),
                decreases n,
            {
                assert(cs@.subrange(0, n as int).drop_last() =~= cs@.subrange(0, n - 1));
                n = n - 1;
            }
            if n > 0 {
                return string_of_chars(sub_chars(&cs, 0, n).as_slice());
            }
        },
        None => {},
    }
    let mut out = if tls {
        string_of_chars(vec!['h', 't', 't', 'p', 's', ':', '/', '/'].as_slice())
    } else {
        string_of_chars(vec!['h', 't', 't', 'p', ':', '/', '/'].as_slice())
    };
    let from_header = match host_header {
        Some(h) => {
            let t = trim(h);
            if t.is_empty() {
                None
            } else {
                Some(string_of_chars(str_chars(t).as_slice()))
            }
        },
        None => None,
    };
    let host = match from_header {
        Some(h) => h,
        None => match url_host(origin_header) {
            Some(h) => h,
            None => match url_host(referer) {
                Some(h) => h,
                None => {
                    let mut l = string_of_chars(
                        vec!['l', 'o', 'c', 'a', 'l', 'h', 'o', 's', 't', ':'].as_slice(),
                    );
                    let port: u64 = if tls { https_port as u64 } else { http_port as u64 };
                    l.append(crate::text::decimal_string(port).as_str());
                    l
                },
            },
        },
    };
    out.append(host.as_str());
    out
}

} // verus!
