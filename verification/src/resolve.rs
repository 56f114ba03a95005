//! Driving DaVinci Resolve's playhead: chaptr writes a single line to a file
//! that a Lua script running inside Resolve watches.
use vstd::prelude::*;

use crate::text::{
    digit, digits_value, is_digit, unsigned_digits, base_name, decimal, file_name, join_path, owned, parse_u64, path_join, push_char,
    push_decimal, push_str, spec_parse_u64,
};

verus! {

/// The name of the watcher script, and of its Workspace > Scripts entry.
pub const SCRIPT_NAME: &'static str = "chaptr link.lua";

/// Where chaptr writes and the Lua script reads, under the data root.
pub fn request_file(data_root: &str) -> (p: String)
    ensures
        p@ == path_join(data_root@, "goto.txt"@),
{
    join_path(data_root, "goto.txt")
}

/// Resolve's per-user script folder under `base`: `%APPDATA%` on Windows,
/// `$HOME` elsewhere.
pub open spec fn spec_scripts_dir(base: Seq<char>, windows: bool) -> Seq<char> {
    if windows {
        path_join(
            path_join(
                path_join(
                    path_join(
                        path_join(path_join(base, "Blackmagic Design"@), "DaVinci Resolve"@),
                        "Support"@,
                    ),
                    "Fusion"@,
                ),
                "Scripts"@,
            ),
            "Utility"@,
        )
    } else {
        path_join(base, ".local/share/DaVinciResolve/Fusion/Scripts/Utility"@)
    }
}

/// Resolve's per-user script folder, where a file becomes a Workspace >
/// Scripts entry named after it; none when the variable it hangs off is
/// unset.
pub fn scripts_dir(base: Option<&str>, windows: bool) -> (r: Option<String>)
    ensures
        r is None <==> base is None,
        r matches Some(d) ==> d@ == spec_scripts_dir(base->0@, windows),
{
    match base {
        None => None,
        Some(b) => {
            if windows {
                let p = join_path(b, "Blackmagic Design");
                let p = join_path(p.as_str(), "DaVinci Resolve");
                let p = join_path(p.as_str(), "Support");
                let p = join_path(p.as_str(), "Fusion");
                let p = join_path(p.as_str(), "Scripts");
                Some(join_path(p.as_str(), "Utility"))
            } else {
                Some(join_path(b, ".local/share/DaVinciResolve/Fusion/Scripts/Utility"))
            }
        },
    }
}

/// `s` up to its first tab: what `s.split('\t').next()` yields.
pub open spec fn before_tab(s: Seq<char>) -> Seq<char>
    decreases s.len(),
{
    if s.len() == 0 || s[0] == '\t' {
        seq![]
    } else {
        seq![s[0]] + before_tab(s.drop_first())
    }
}

/// The counter of the next request: one more than the counter at the start
/// of the previous request, or 1 when there is none to read. `None` when
/// the previous counter is already the largest there is.
pub open spec fn spec_next_request(previous: Option<Seq<char>>) -> Option<u64> {
    let last: u64 = match previous {
        Some(t) => match spec_parse_u64(before_tab(t)) {
            Some(n) => n,
            None => 0,
        },
        None => 0,
    };
    if last < u64::MAX {
        Some((last + 1) as u64)
    } else {
        None
    }
}

fn head_before_tab(s: &str) -> (r: String)
    ensures
        r@ == before_tab(s@),
{
    let mut r = String::new();
    let mut done = false;
    let ghost mut at: int = 0;
    proof {
        assert(s@.subrange(0, s@.len() as int) == s@);
        assert(r@ + before_tab(s@) =~= before_tab(s@));
    }
    for c in it: s.chars()
        invariant
            it.seq() == s@,
            0 <= at <= it.index(),
            done ==> at < s@.len() && s@[at] == '\t',
            !done ==> at == it.index(),
            r@ + before_tab(s@.subrange(at, s@.len() as int)) == before_tab(s@),
    {
        if !done {
            proof {
                let rest = s@.subrange(at, s@.len() as int);
                assert(rest[0] == c);
                assert(rest.drop_first() == s@.subrange(at + 1, s@.len() as int));
            }
            if c == '\t' {
                done = true;
            } else {
                push_char(&mut r, c);
                proof {
                    at = at + 1;
                }
            }
        }
    }
    proof {
        let rest = s@.subrange(at, s@.len() as int);
        if !done {
            assert(rest.len() == 0);
        }
        assert(before_tab(rest) == Seq::<char>::empty());
        assert(r@ + Seq::<char>::empty() == r@);
    }
    r
}

/// The counter for the next request, from the previous request file's text
/// (`None` when there is no such file). The counter makes a repeated click
/// on the same moment a new request, which a bare timestamp would not.
pub fn next_request(previous: Option<&str>) -> (r: Option<u64>)
    ensures
        r == spec_next_request(
            match previous {
                Some(t) => Some(t@),
                None => None,
            },
        ),
{
    let last: u64 = match previous {
        Some(t) => {
            let head = head_before_tab(t);
            match parse_u64(head.as_str()) {
                Some(n) => n,
                None => 0,
            }
        },
        None => 0,
    };
    if last < u64::MAX {
        Some(last + 1)
    } else {
        None
    }
}

/// The request line: counter, the recording's file name (or the whole path
/// when it has none), and the offset as the caller wrote it, tab-separated.
pub open spec fn spec_request_line(n: u64, file: Seq<char>, offset: Seq<char>) -> Seq<char> {
    let name = match base_name(file) {
        Some(b) => b,
        None => file,
    };
    decimal(n as nat) + seq!['\t'] + name + seq!['\t'] + offset
}

/// The line that asks Resolve to seek.
pub fn request_line(n: u64, file: &str, offset: &str) -> (r: String)
    ensures
        r@ == spec_request_line(n, file@, offset@),
{
    let mut r = String::new();
    push_decimal(&mut r, n);
    push_char(&mut r, '\t');
    match file_name(file) {
        Some(b) => push_str(&mut r, b.as_str()),
        None => push_str(&mut r, file),
    }
    push_char(&mut r, '\t');
    push_str(&mut r, offset);
    r
}

proof fn lemma_decimal_digits(n: nat)
    ensures
        decimal(n).len() > 0,
        forall|k: int| 0 <= k < decimal(n).len() ==> is_digit(#[trigger] decimal(n)[k]),
        digits_value(decimal(n)) == n,
    decreases n,
{
    assert(digit(n % 10) as nat == (n % 10) + 48);
    if n >= 10 {
        lemma_decimal_digits(n / 10);
        let s = decimal(n / 10);
        let t = s.push(digit(n % 10));
        assert(t.drop_last() == s);
        assert(decimal(n) == t);
        assert(digits_value(t) == digits_value(s) * 10 + (n % 10));
        assert(n == (n / 10) * 10 + n % 10);
        assert forall|k: int| 0 <= k < t.len() implies is_digit(#[trigger] t[k]) by {
            if k < s.len() {
                assert(t[k] == s[k]);
            }
        }
    } else {
        let t = seq![digit(n)];
        assert(decimal(n) == t);
        assert(t.drop_last() == Seq::<char>::empty());
        assert(digits_value(Seq::<char>::empty()) == 0);
        assert(n % 10 == n);
        assert(digits_value(t) == digits_value(t.drop_last()) * 10 + (t.last() as nat - 48) as nat);
    }
}

proof fn lemma_before_tab_prefix(d: Seq<char>, rest: Seq<char>)
    requires
        forall|k: int| 0 <= k < d.len() ==> d[k] != '\t',
    ensures
        before_tab(d + seq!['\t'] + rest) == d,
    decreases d.len(),
{
    let s = d + seq!['\t'] + rest;
    if d.len() == 0 {
        assert(s[0] == '\t');
    } else {
        assert(s[0] == d[0]);
        assert(s.drop_first() == d.drop_first() + seq!['\t'] + rest);
        lemma_before_tab_prefix(d.drop_first(), rest);
        assert(seq![d[0]] + d.drop_first() == d);
    }
}

/// Each request can be told from the last: reading back the line that a
/// request wrote gives the next counter, so two requests for the same
/// moment, one after the other, write different lines.
pub proof fn law_requests_count_up(n: u64, file: Seq<char>, offset: Seq<char>)
    requires
        n < u64::MAX,
    ensures
        spec_next_request(Some(spec_request_line(n, file, offset))) == Some((n + 1) as u64),
        spec_request_line(n, file, offset) != spec_request_line((n + 1) as u64, file, offset),
{
    let name = match base_name(file) {
        Some(b) => b,
        None => file,
    };
    let rest = name + seq!['\t'] + offset;
    lemma_decimal_digits(n as nat);
    lemma_decimal_digits((n + 1) as nat);
    let d0 = decimal(n as nat);
    let d1 = decimal((n + 1) as nat);
    assert forall|k: int| 0 <= k < d0.len() implies d0[k] != '\t' by {
        assert(is_digit(d0[k]));
    }
    assert forall|k: int| 0 <= k < d1.len() implies d1[k] != '\t' by {
        assert(is_digit(d1[k]));
    }
    assert(spec_request_line(n, file, offset) == d0 + seq!['\t'] + rest);
    assert(spec_request_line((n + 1) as u64, file, offset) == d1 + seq!['\t'] + rest);
    lemma_before_tab_prefix(d0, rest);
    lemma_before_tab_prefix(d1, rest);
    assert(is_digit(d0[0]));
    assert(unsigned_digits(d0) == d0);
    assert(spec_parse_u64(d0) == Some(n));
    if spec_request_line(n, file, offset) == spec_request_line((n + 1) as u64, file, offset) {
        assert(d0 == d1);
    }
}

} // verus!
