use vstd::prelude::*;

use crate::store::{trim, trim_of};
use crate::text::{find_first, first_index_of, str_chars, string_of_chars, sub_chars};
use crate::web::split_on;

verus! {

/// The entry that one line of a `.env` file gives: blank lines, comments and
/// lines without `=` give none; otherwise the trimmed key and value around
/// the first `=`.
pub open spec fn env_line_entry(line: Seq<char>) -> Option<(Seq<char>, Seq<char>)> {
    let t = trim_of(line);
    if t.len() == 0 || t[0] == '#' {
        None
    } else {
        match first_index_of(t, '=') {
            None => None,
            Some(p) => if 0 <= p < t.len() {
                Some((trim_of(t.subrange(0, p)), trim_of(t.subrange(p + 1, t.len() as int))))
            } else {
                None
            },
        }
    }
}

/// The entries of a sequence of lines, in order.
pub open spec fn env_entries(lines: Seq<Seq<char>>) -> Seq<(Seq<char>, Seq<char>)>
    decreases lines.len(),
{
    if lines.len() == 0 {
        Seq::empty()
    } else {
        match env_line_entry(lines[0]) {
            None => env_entries(lines.drop_first()),
            Some(e) => seq![e] + env_entries(lines.drop_first()),
        }
    }
}

pub open spec fn pair_view(v: Seq<(String, String)>) -> Seq<(Seq<char>, Seq<char>)> {
    v.map_values(|p: (String, String)| (p.0@, p.1@))
}

fn line_entry(line: &Vec<char>) -> (r: Option<(String, String)>)
    ensures
        match r {
            None => env_line_entry(line@) is None,
            Some(p) => env_line_entry(line@) == Some((p.0@, p.1@)),
        },
{
    let whole = string_of_chars(line.as_slice());
    let t = str_chars(trim(whole.as_str()));
    if t.len() == 0 || t[0] == '#' {
        return None;
    }
    match find_first(&t, '=') {
        None => None,
        Some(p) => {
            let n = t.len();
            let ks = string_of_chars(sub_chars(&t, 0, p).as_slice());
            let vs = string_of_chars(sub_chars(&t, p + 1, n).as_slice());
            let k = string_of_chars(str_chars(trim(ks.as_str())).as_slice());
            let v = string_of_chars(str_chars(trim(vs.as_str())).as_slice());
            Some((k, v))
        },
    }
}

/// The key/value entries of a `.env` text, in the order of its lines; a
/// later entry for the same key overrides an earlier one.
pub fn parse_env(text: &str) -> (r: Vec<(String, String)>)
    ensures
        pair_view(r@) == env_entries(split_on(text@, '\n')),
{
    let mut out: Vec<(String, String)> = Vec::new();
    let mut rest = str_chars(text);
    loop
        invariant
            pair_view(out@) + env_entries(split_on(rest@, '\n')) == env_entries(
                split_on(text@, '\n'),
            ),
        decreases rest@.len(),
    {
        match find_first(&rest, '\n') {
            None => {
                let ghost lines = split_on(rest@, '\n');
                assert(lines =~= seq![rest@]);
                assert(lines.drop_first() =~= Seq::<Seq<char>>::empty());
                let e = line_entry(&rest);
                let ghost before = out@;
                match e {
                    None => {},
                    Some(p) => {
                        out.push(p);
                        assert(pair_view(out@) =~= pair_view(before) + seq![(
                            out@.last().0@,
                            out@.last().1@,
                        )]);
                    },
                }
                assert(env_entries(Seq::<Seq<char>>::empty()) =~= Seq::empty());
                assert(pair_view(out@) =~= pair_view(out@) + Seq::<(Seq<char>, Seq<char>)>::empty());
                return out;
            },
            Some(i) => {
                let n = rest.len();
                let line = sub_chars(&rest, 0, i);
                let tail = sub_chars(&rest, i + 1, n);
                let ghost lines = split_on(rest@, '\n');
                assert(lines[0] == line@);
                assert(lines.drop_first() =~= split_on(tail@, '\n'));
                let ghost before = out@;
                match line_entry(&line) {
                    None => {},
                    Some(p) => {
                        out.push(p);
                        assert(pair_view(out@) =~= pair_view(before) + seq![(
                            out@.last().0@,
                            out@.last().1@,
                        )]);
                    },
                }
                rest = tail;
            },
        }
    }
}

} // verus!
