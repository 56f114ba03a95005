//! Text primitives shared by the track, transcript and chaptr logic.
//!
//! Letters, digits and case mapping come from std's Unicode tables and are
//! taken as given; everything built on them (splitting into words, trimming,
//! substring search, number formatting) is proved here.
use vstd::prelude::*;

verus! {

broadcast use vstd::seq_lib::group_seq_properties;

/// Whether `char::is_alphanumeric` holds of `c` (Unicode Alphabetic or Numeric).
pub uninterp spec fn is_alphanumeric(c: char) -> bool;

/// The Unicode White_Space property, which `char::is_whitespace` tests.
pub open spec fn is_white_space(c: char) -> bool {
    let u = c as u32;
    ||| 0x09 <= u <= 0x0D
    ||| u == 0x20 || u == 0x85 || u == 0xA0 || u == 0x1680
    ||| 0x2000 <= u <= 0x200A
    ||| u == 0x2028 || u == 0x2029 || u == 0x202F || u == 0x205F || u == 0x3000
}

/// What `str::to_lowercase` returns for a string with these characters.
pub uninterp spec fn lowercase(s: Seq<char>) -> Seq<char>;

pub open spec fn is_ascii_alphanumeric(c: char) -> bool {
    ('a' <= c && c <= 'z') || ('A' <= c && c <= 'Z') || ('0' <= c && c <= '9')
}


/// `char::is_alphanumeric`. Its contract claims the Unicode result by name,
/// and for ASCII the plain letters-and-digits rule that std documents.
#[verifier::external_body]
pub(crate) fn char_is_alphanumeric(c: char) -> (b: bool)
    ensures
        b == is_alphanumeric(c),
        (c as u32) < 128 ==> (b <==> is_ascii_alphanumeric(c)),
{
    c.is_alphanumeric()
}

/// Whether `c` is white space, as `char::is_whitespace` decides: the
/// Unicode White_Space property, a fixed set of code points.
pub(crate) fn char_is_whitespace(c: char) -> (b: bool)
    ensures
        b == is_white_space(c),
{
    let u = c as u32;
    (0x09 <= u && u <= 0x0D) || u == 0x20 || u == 0x85 || u == 0xA0 || u == 0x1680 || (0x2000 <= u && u
        <= 0x200A) || u == 0x2028 || u == 0x2029 || u == 0x202F || u == 0x205F || u == 0x3000
}

/// ASCII text lowercased: 'A' to 'Z' become 'a' to 'z', nothing else changes.
pub open spec fn ascii_lower(s: Seq<char>) -> Seq<char> {
    s.map_values(|c: char| if 'A' <= c && c <= 'Z' { ((c as u32) + 32) as char } else { c })
}

/// `str::to_lowercase`. The contract names the result, and states the ASCII
/// case std documents; the Unicode case tables are not restated here.
#[verifier::external_body]
pub(crate) fn to_lowercase(s: &str) -> (r: String)
    ensures
        r@ == lowercase(s@),
        (forall|i: int| 0 <= i < s@.len() ==> (#[trigger] s@[i] as u32) < 128) ==> r@ == ascii_lower(s@),
{
    s.to_lowercase()
}

/// `String::push`: appends one character.
#[verifier::external_body]
pub(crate) fn push_char(s: &mut String, c: char)
    ensures
        final(s)@ == old(s)@.push(c),
{
    s.push(c)
}

/// Appends every character of `t` to `s`.
pub fn push_str(s: &mut String, t: &str)
    ensures
        final(s)@ == old(s)@ + t@,
{
    let ghost start = s@;
    for c in it: t.chars()
        invariant
            it.seq() == t@,
            s@ == start + t@.take(it.index() as int),
    {
        proof {
            assert(t@.take(it.index() + 1) == t@.take(it.index() as int).push(c));
        }
        push_char(s, c);
    }
    assert(t@.take(t@.len() as int) == t@);
}

/// A fresh `String` holding `t`.
pub fn owned(t: &str) -> (r: String)
    ensures
        r@ == t@,
{
    let mut r = String::new();
    push_str(&mut r, t);
    r
}

/// The characters of `s`, one per element.
pub fn chars_of(s: &str) -> (v: Vec<char>)
    ensures
        v@ == s@,
{
    let mut v: Vec<char> = Vec::new();
    for c in it: s.chars()
        invariant
            it.seq() == s@,
            v@ == s@.take(it.index() as int),
    {
        proof {
            assert(s@.take(it.index() + 1) == s@.take(it.index() as int).push(c));
        }
        v.push(c);
    }
    assert(s@.take(s@.len() as int) == s@);
    v
}

/// A `String` made of the characters `v[from..to]`.
pub fn string_of(v: &Vec<char>, from: usize, to: usize) -> (s: String)
    requires
        from <= to <= v@.len(),
    ensures
        s@ == v@.subrange(from as int, to as int),
{
    let mut s = String::new();
    let mut i = from;
    while i < to
        invariant
            from <= i <= to <= v@.len(),
            s@ == v@.subrange(from as int, i as int),
        decreases to - i,
    {
        proof {
            assert(v@.subrange(from as int, i + 1) == v@.subrange(from as int, i as int).push(v@[i as int]));
        }
        push_char(&mut s, v[i]);
        i = i + 1;
    }
    s
}

/// The views of a list of strings.
pub open spec fn views(v: Seq<String>) -> Seq<Seq<char>> {
    v.map_values(|t: String| t@)
}

/// Which characters make up a word.
#[derive(Clone, Copy, PartialEq, Eq, Structural)]
pub enum Split {
    /// Words are runs of alphanumeric characters (`split(|c| !c.is_alphanumeric())`).
    Alphanumeric,
    /// Words are runs of non-whitespace characters (`split_whitespace`).
    Whitespace,
    /// Words are runs of characters other than '/': path components.
    Slash,
}

pub open spec fn in_word(k: Split, c: char) -> bool {
    match k {
        Split::Alphanumeric => is_alphanumeric(c),
        Split::Whitespace => !is_white_space(c),
        Split::Slash => c != '/',
    }
}

/// The maximal runs of word characters in `s`, left to right. This is what
/// std's split, with the empty pieces filtered out, yields.
pub open spec fn tokens(k: Split, s: Seq<char>) -> Seq<Seq<char>>
    decreases s.len(),
{
    if s.len() == 0 {
        seq![]
    } else {
        let prev = tokens(k, s.drop_last());
        let c = s.last();
        if !in_word(k, c) {
            prev
        } else if s.len() >= 2 && in_word(k, s[s.len() - 2]) && prev.len() > 0 {
            prev.update(prev.len() - 1, prev.last().push(c))
        } else {
            prev.push(seq![c])
        }
    }
}

/// Every word is non-empty and made only of word characters.
pub proof fn lemma_tokens_wf(k: Split, s: Seq<char>)
    ensures
        forall|i: int| 0 <= i < tokens(k, s).len() ==> #[trigger] tokens(k, s)[i].len() > 0,
        forall|i: int, j: int|
            0 <= i < tokens(k, s).len() && 0 <= j < tokens(k, s)[i].len() ==> in_word(
                k,
                #[trigger] tokens(k, s)[i][j],
            ),
        s.len() > 0 && in_word(k, s.last()) ==> tokens(k, s).len() > 0,
    decreases s.len(),
{
    if s.len() > 0 {
        let prev = tokens(k, s.drop_last());
        let c = s.last();
        lemma_tokens_wf(k, s.drop_last());
        let t = tokens(k, s);
        if !in_word(k, c) {
        } else if s.len() >= 2 && in_word(k, s[s.len() - 2]) && prev.len() > 0 {
            assert forall|i: int| 0 <= i < t.len() implies #[trigger] t[i].len() > 0 by {
                if i < prev.len() - 1 {
                    assert(t[i] == prev[i]);
                }
            }
            assert forall|i: int, j: int|
                0 <= i < t.len() && 0 <= j < t[i].len() implies in_word(k, #[trigger] t[i][j]) by {
                if i < prev.len() - 1 {
                    assert(t[i] == prev[i]);
                } else {
                    assert(t[i] == prev.last().push(c));
                    if j < prev.last().len() {
                        assert(t[i][j] == prev[prev.len() - 1][j]);
                    }
                }
            }
        } else {
            assert forall|i: int| 0 <= i < t.len() implies #[trigger] t[i].len() > 0 by {
                if i < prev.len() {
                    assert(t[i] == prev[i]);
                }
            }
            assert forall|i: int, j: int|
                0 <= i < t.len() && 0 <= j < t[i].len() implies in_word(k, #[trigger] t[i][j]) by {
                if i < prev.len() {
                    assert(t[i] == prev[i]);
                }
            }
        }
    }
}

fn is_word_char(k: Split, c: char) -> (b: bool)
    ensures
        b == in_word(k, c),
{
    match k {
        Split::Alphanumeric => char_is_alphanumeric(c),
        Split::Whitespace => !char_is_whitespace(c),
        Split::Slash => c != '/',
    }
}

/// The words of `s`, as `tokens` defines them.
pub fn split_words(k: Split, s: &str) -> (r: Vec<String>)
    ensures
        views(r@) == tokens(k, s@),
{
    let mut out: Vec<String> = Vec::new();
    let mut cur = String::new();
    let mut in_run = false;
    for c in it: s.chars()
        invariant
            it.seq() == s@,
            in_run == (it.index() > 0 && in_word(k, s@[it.index() - 1])),
            in_run ==> cur@.len() > 0,
            views(out@) + (if in_run {
                seq![cur@]
            } else {
                Seq::<Seq<char>>::empty()
            }) == tokens(k, s@.take(it.index() as int)),
    {
        let ghost i = it.index() as int;
        let ghost pre = s@.take(i);
        let ghost now = s@.take(i + 1);
        proof {
            assert(now.drop_last() == pre);
            assert(now.last() == c);
            lemma_tokens_wf(k, pre);
            if i > 0 {
                assert(now[now.len() - 2] == s@[i - 1]);
            }
        }
        if is_word_char(k, c) {
            if in_run {
                let ghost old_cur = cur@;
                push_char(&mut cur, c);
                proof {
                    assert(tokens(k, pre).len() > 0);
                    assert(views(out@) + seq![cur@] == tokens(k, pre).update(
                        tokens(k, pre).len() - 1,
                        tokens(k, pre).last().push(c),
                    ));
                }
            } else {
                cur = String::new();
                push_char(&mut cur, c);
                in_run = true;
                proof {
                    assert(cur@ == seq![c]);
                    assert(views(out@) + seq![cur@] == tokens(k, pre).push(seq![c]));
                }
            }
        } else {
            if in_run {
                let ghost before = out@;
                let done = cur;
                cur = String::new();
                out.push(done);
                in_run = false;
                proof {
                    assert(views(out@) == views(before) + seq![done@]);
                }
            }
            proof {
                assert(views(out@) + Seq::<Seq<char>>::empty() == views(out@));
            }
        }
    }
    proof {
        assert(s@.take(s@.len() as int) == s@);
    }
    if in_run {
        let ghost before = out@;
        out.push(cur);
        proof {
            assert(views(out@) == views(before) + seq![views(out@).last()]);
        }
    } else {
        assert(views(out@) + Seq::<Seq<char>>::empty() == views(out@));
    }
    out
}


/// Words whose UTF-8 encoding is longer than `min` bytes (`w.len() > min`).
pub open spec fn longer_than(min: nat) -> spec_fn(Seq<char>) -> bool {
    |t: Seq<char>| vstd::utf8::encode_utf8(t).len() > min
}

/// The words of `s` longer than `min` bytes, in order, repeats kept.
pub open spec fn words_over(k: Split, s: Seq<char>, min: nat) -> Seq<Seq<char>> {
    tokens(k, s).filter(longer_than(min))
}

/// The distinct words of `s` longer than `min` bytes.
pub open spec fn word_set(k: Split, s: Seq<char>, min: nat) -> Set<Seq<char>> {
    words_over(k, s, min).to_set()
}

/// Keeps the strings whose byte length exceeds `min`, in order.
pub fn keep_longer(v: &Vec<String>, min: usize) -> (r: Vec<String>)
    ensures
        views(r@) == views(v@).filter(longer_than(min as nat)),
{
    let mut r: Vec<String> = Vec::new();
    let mut i: usize = 0;
    while i < v.len()
        invariant
            i <= v@.len(),
            views(r@) == views(v@).take(i as int).filter(longer_than(min as nat)),
        decreases v@.len() - i,
    {
        proof {
            assert(views(v@).take(i + 1) == views(v@).take(i as int).push(v@[i as int]@));
            views(v@).take(i as int).lemma_filter_push(v@[i as int]@, longer_than(min as nat));
        }
        let n = v[i].as_str().as_bytes().len();
        if n > min {
            let ghost before = r@;
            r.push(v[i].clone());
            proof {
                assert(views(r@) == views(before).push(v@[i as int]@));
            }
        }
        i = i + 1;
    }
    assert(views(v@).take(v@.len() as int) == views(v@));
    r
}

/// Whether `v` holds a string equal to `t`.
pub fn holds(v: &Vec<String>, t: &String) -> (b: bool)
    ensures
        b == views(v@).contains(t@),
{
    let mut i: usize = 0;
    while i < v.len()
        invariant
            i <= v@.len(),
            forall|j: int| 0 <= j < i ==> v@[j]@ != t@,
        decreases v@.len() - i,
    {
        if v[i] == *t {
            assert(views(v@)[i as int] == t@);
            return true;
        }
        i = i + 1;
    }
    assert forall|j: int| 0 <= j < views(v@).len() implies views(v@)[j] != t@ by {
        assert(views(v@)[j] == v@[j]@);
    }
    false
}

/// The strings of `v` with repeats removed, first occurrences kept in order.
pub fn distinct(v: &Vec<String>) -> (r: Vec<String>)
    ensures
        views(r@).no_duplicates(),
        views(r@).to_set() == views(v@).to_set(),
        views(r@).len() == views(v@).to_set().len(),
{
    let mut r: Vec<String> = Vec::new();
    let mut i: usize = 0;
    while i < v.len()
        invariant
            i <= v@.len(),
            views(r@).no_duplicates(),
            views(r@).to_set() == views(v@).take(i as int).to_set(),
        decreases v@.len() - i,
    {
        let ghost before = r@;
        proof {
            assert(views(v@).take(i + 1) == views(v@).take(i as int).push(v@[i as int]@));
            views(v@).take(i as int).lemma_push_to_set_commute(v@[i as int]@);
        }
        if !holds(&r, &v[i]) {
            r.push(v[i].clone());
            proof {
                assert(views(r@) == views(before).push(v@[i as int]@));
                views(before).lemma_push_to_set_commute(v@[i as int]@);
            }
        } else {
            assert(views(r@).to_set().insert(v@[i as int]@) == views(r@).to_set());
        }
        i = i + 1;
    }
    assert(views(v@).take(v@.len() as int) == views(v@));
    proof { views(r@).unique_seq_to_set(); }
    r
}

/// How many elements of `p` (repeats counted) also occur in `w`.
pub fn count_shared(p: &Vec<String>, w: &Vec<String>) -> (n: usize)
    ensures
        n == views(p@).filter(|x: Seq<char>| views(w@).contains(x)).len(),
{
    let ghost f = |x: Seq<char>| views(w@).contains(x);
    let mut n: usize = 0;
    let mut i: usize = 0;
    while i < p.len()
        invariant
            i <= p@.len(),
            f == (|x: Seq<char>| views(w@).contains(x)),
            n == views(p@).take(i as int).filter(f).len(),
            n <= i,
        decreases p@.len() - i,
    {
        proof {
            assert(views(p@).take(i + 1) == views(p@).take(i as int).push(p@[i as int]@));
            views(p@).take(i as int).lemma_filter_push(p@[i as int]@, f);
        }
        if holds(w, &p[i]) {
            n = n + 1;
        }
        i = i + 1;
    }
    assert(views(p@).take(p@.len() as int) == views(p@));
    n
}

/// For a list without repeats, counting its members that lie in `b` counts
/// the intersection of its set with `b`.
pub proof fn lemma_shared_is_intersection(a: Seq<Seq<char>>, b: Seq<Seq<char>>)
    requires
        a.no_duplicates(),
    ensures
        a.filter(|x: Seq<char>| b.contains(x)).len() == a.to_set().intersect(b.to_set()).len(),
    decreases a.len(),
{
    let f = |x: Seq<char>| b.contains(x);
    if a.len() == 0 {
        assert(a.to_set().intersect(b.to_set()) == Set::<Seq<char>>::empty());
        reveal(Seq::filter);
    } else {
        let rest = a.drop_last();
        let x = a.last();
        assert(rest.push(x) == a);
        assert(rest.no_duplicates());
        lemma_shared_is_intersection(rest, b);
        rest.lemma_filter_push(x, f);
        rest.lemma_push_to_set_commute(x);
        assert(!rest.contains(x)) by {
            if rest.contains(x) {
                let j = choose|j: int| 0 <= j < rest.len() && rest[j] == x;
                assert(a[j] == a[a.len() - 1]);
            }
        }
        assert(!rest.to_set().contains(x));
        if b.contains(x) {
            assert(a.to_set().intersect(b.to_set()) == rest.to_set().intersect(b.to_set()).insert(x));
        } else {
            assert(a.to_set().intersect(b.to_set()) == rest.to_set().intersect(b.to_set()));
        }
    }
}

/// The distinct words of `text`, after lowercasing, that are longer than
/// `min` bytes.
pub fn word_list(k: Split, text: &str, min: usize) -> (r: Vec<String>)
    ensures
        views(r@).no_duplicates(),
        views(r@).to_set() == word_set(k, lowercase(text@), min as nat),
        r@.len() == word_set(k, lowercase(text@), min as nat).len(),
{
    let lower = to_lowercase(text);
    let all = split_words(k, lower.as_str());
    let kept = keep_longer(&all, min);
    distinct(&kept)
}

/// How many words of one list appear in another, where neither repeats a
/// word, in terms of the sets they stand for.
pub fn common_count(p: &Vec<String>, w: &Vec<String>) -> (n: usize)
    requires
        views(p@).no_duplicates(),
    ensures
        n == views(p@).to_set().intersect(views(w@).to_set()).len(),
{
    let n = count_shared(p, w);
    proof {
        lemma_shared_is_intersection(views(p@), views(w@));
    }
    n
}


/// `s` without its leading White_Space characters.
pub open spec fn trim_start(s: Seq<char>) -> Seq<char>
    decreases s.len(),
{
    if s.len() > 0 && is_white_space(s[0]) {
        trim_start(s.drop_first())
    } else {
        s
    }
}

/// `s` without its trailing White_Space characters.
pub open spec fn trim_end(s: Seq<char>) -> Seq<char>
    decreases s.len(),
{
    if s.len() > 0 && is_white_space(s.last()) {
        trim_end(s.drop_last())
    } else {
        s
    }
}

/// What `str::trim` leaves.
pub open spec fn trimmed(s: Seq<char>) -> Seq<char> {
    trim_end(trim_start(s))
}

proof fn lemma_trim_start_at(s: Seq<char>, i: int)
    requires
        0 <= i <= s.len(),
        forall|j: int| 0 <= j < i ==> is_white_space(#[trigger] s[j]),
        i == s.len() || !is_white_space(s[i]),
    ensures
        trim_start(s) == s.subrange(i, s.len() as int),
    decreases i,
{
    if i > 0 {
        let t = s.drop_first();
        assert forall|j: int| 0 <= j < i - 1 implies is_white_space(#[trigger] t[j]) by {
            assert(t[j] == s[j + 1]);
        }
        if i < s.len() {
            assert(t[i - 1] == s[i]);
        }
        lemma_trim_start_at(t, i - 1);
        assert(t.subrange(i - 1, t.len() as int) == s.subrange(i, s.len() as int));
    } else {
        assert(s.subrange(0, s.len() as int) == s);
    }
}

proof fn lemma_trim_end_at(s: Seq<char>, e: int)
    requires
        0 <= e <= s.len(),
        forall|j: int| e <= j < s.len() ==> is_white_space(#[trigger] s[j]),
        e == 0 || !is_white_space(s[e - 1]),
    ensures
        trim_end(s) == s.subrange(0, e),
    decreases s.len() - e,
{
    if e < s.len() {
        let t = s.drop_last();
        assert forall|j: int| e <= j < t.len() implies is_white_space(#[trigger] t[j]) by {
            assert(t[j] == s[j]);
        }
        if e > 0 {
            assert(t[e - 1] == s[e - 1]);
        }
        lemma_trim_end_at(t, e);
        assert(t.subrange(0, e) == s.subrange(0, e));
    } else {
        assert(s.subrange(0, s.len() as int) == s);
    }
}

/// `str::trim`: the string without leading and trailing White_Space.
pub fn trim(s: &str) -> (r: String)
    ensures
        r@ == trimmed(s@),
{
    let v = chars_of(s);
    let mut i: usize = 0;
    while i < v.len() && char_is_whitespace(v[i])
        invariant
            i <= v@.len(),
            v@ == s@,
            forall|j: int| 0 <= j < i ==> is_white_space(#[trigger] s@[j]),
        decreases v@.len() - i,
    {
        i = i + 1;
    }
    proof {
        lemma_trim_start_at(s@, i as int);
    }
    let ghost t = s@.subrange(i as int, s@.len() as int);
    let mut e: usize = v.len();
    while e > i && char_is_whitespace(v[e - 1])
        invariant
            i <= e <= v@.len(),
            v@ == s@,
            t == s@.subrange(i as int, s@.len() as int),
            forall|j: int| e <= j < s@.len() ==> is_white_space(#[trigger] s@[j]),
        decreases e,
    {
        e = e - 1;
    }
    proof {
        assert forall|j: int| e - i <= j < t.len() implies is_white_space(#[trigger] t[j]) by {
            assert(t[j] == s@[j + i]);
        }
        if e > i {
            assert(t[e - i - 1] == s@[e - 1]);
        }
        lemma_trim_end_at(t, e - i);
        assert(t.subrange(0, e - i) == s@.subrange(i as int, e as int));
    }
    string_of(&v, i, e)
}

/// Whether `k` occurs in `s` as a run of consecutive characters.
pub open spec fn has_sub(s: Seq<char>, k: Seq<char>) -> bool {
    exists|i: int| 0 <= i && i + k.len() <= s.len() && #[trigger] s.subrange(i, i + k.len()) == k
}

fn matches_at(s: &Vec<char>, k: &Vec<char>, i: usize) -> (b: bool)
    requires
        i + k@.len() <= s@.len(),
    ensures
        b == (s@.subrange(i as int, i + k@.len()) == k@),
{
    let n = s.len();
    let mut j: usize = 0;
    while j < k.len()
        invariant
            j <= k@.len(),
            n == s@.len(),
            i + k@.len() <= s@.len(),
            forall|m: int| 0 <= m < j ==> s@[i + m] == k@[m],
        decreases k@.len() - j,
    {
        if s[i + j] != k[j] {
            assert(s@.subrange(i as int, i + k@.len())[j as int] != k@[j as int]);
            return false;
        }
        j = j + 1;
    }
    assert(s@.subrange(i as int, i + k@.len()) == k@);
    true
}

/// `str::contains` for a string pattern.
pub fn contains_str(s: &str, k: &str) -> (b: bool)
    ensures
        b == has_sub(s@, k@),
{
    let sv = chars_of(s);
    let kv = chars_of(k);
    if kv.len() > sv.len() {
        return false;
    }
    let last = sv.len() - kv.len();
    let mut i: usize = 0;
    loop
        invariant
            sv@ == s@,
            kv@ == k@,
            kv@.len() <= sv@.len(),
            last == sv@.len() - kv@.len(),
            i <= last,
            forall|m: int| 0 <= m < i ==> #[trigger] s@.subrange(m, m + k@.len()) != k@,
        decreases last - i,
    {
        if matches_at(&sv, &kv, i) {
            return true;
        }
        if i == last {
            return false;
        }
        i = i + 1;
    }
}

/// `str::starts_with` for a string pattern.
pub fn starts_with(s: &str, p: &str) -> (b: bool)
    ensures
        b == p@.is_prefix_of(s@),
{
    let sv = chars_of(s);
    let pv = chars_of(p);
    if pv.len() > sv.len() {
        return false;
    }
    let b = matches_at(&sv, &pv, 0);
    assert(b == (s@.subrange(0, p@.len() as int) == p@));
    b
}

/// The decimal digit for `d`.
pub open spec fn digit(d: nat) -> char {
    ((d % 10) + 48) as char
}

/// The decimal numeral for `n`, as `to_string` writes it.
pub open spec fn decimal(n: nat) -> Seq<char>
    decreases n,
{
    if n < 10 {
        seq![digit(n)]
    } else {
        decimal(n / 10).push(digit(n % 10))
    }
}

/// Appends the decimal numeral for `n`.
pub fn push_decimal(s: &mut String, n: u64)
    ensures
        final(s)@ == old(s)@ + decimal(n as nat),
    decreases n,
{
    if n >= 10 {
        push_decimal(s, n / 10);
    }
    let d = (n % 10) as u8 + 48;
    let c = d as char;
    assert(c == digit(n as nat));
    push_char(s, c);
}

/// `n.to_string()`.
pub fn decimal_string(n: u64) -> (r: String)
    ensures
        r@ == decimal(n as nat),
{
    let mut r = String::new();
    push_decimal(&mut r, n);
    r
}

/// `format!("{:02}", n)`: at least two digits, zero-padded.
pub open spec fn two_digits(n: nat) -> Seq<char> {
    if n < 10 {
        seq!['0'].add(decimal(n))
    } else {
        decimal(n)
    }
}

/// Appends `n` formatted as `{:02}`.
pub fn push_two_digits(s: &mut String, n: u64)
    ensures
        final(s)@ == old(s)@ + two_digits(n as nat),
{
    if n < 10 {
        push_char(s, '0');
    }
    push_decimal(s, n);
    assert(n < 10 ==> old(s)@.push('0') + decimal(n as nat) == old(s)@ + seq!['0'].add(
        decimal(n as nat),
    ));
}

/// The strings of `v` joined with `sep` between neighbours (`join`).
pub open spec fn joined(v: Seq<Seq<char>>, sep: Seq<char>) -> Seq<char>
    decreases v.len(),
{
    if v.len() == 0 {
        seq![]
    } else if v.len() == 1 {
        v[0]
    } else {
        joined(v.drop_last(), sep) + sep + v.last()
    }
}

/// `v.join(sep)`.
pub fn join(v: &Vec<String>, sep: &str) -> (r: String)
    ensures
        r@ == joined(views(v@), sep@),
{
    let mut r = String::new();
    let mut i: usize = 0;
    while i < v.len()
        invariant
            i <= v@.len(),
            r@ == joined(views(v@).take(i as int), sep@),
        decreases v@.len() - i,
    {
        let ghost before = r@;
        proof {
            assert(views(v@).take(i + 1).drop_last() == views(v@).take(i as int));
            assert(views(v@).take(i + 1).last() == v@[i as int]@);
        }
        if i > 0 {
            push_str(&mut r, sep);
        } else {
            assert(views(v@).take(1) == seq![v@[0]@]);
        }
        push_str(&mut r, v[i].as_str());
        proof {
            if i == 0 {
                assert(r@ == v@[0]@);
            }
        }
        i = i + 1;
    }
    assert(views(v@).take(v@.len() as int) == views(v@));
    r
}

/// The first `n` characters of `s` (`s.chars().take(n).collect()`).
pub fn take_chars(s: &str, n: usize) -> (r: String)
    ensures
        r@ == s@.take(if n < s@.len() { n as int } else { s@.len() as int }),
{
    let v = chars_of(s);
    let end = if n < v.len() { n } else { v.len() };
    string_of(&v, 0, end)
}


/// `a == b` for string slices.
pub fn same_text(a: &str, b: &str) -> (r: bool)
    ensures
        r == (a@ == b@),
{
    let av = chars_of(a);
    let bv = chars_of(b);
    if av.len() != bv.len() {
        return false;
    }
    let r = matches_at(&av, &bv, 0);
    assert(a@.subrange(0, b@.len() as int) == a@);
    r
}


/// Character-by-character order on strings, comparing code points; for
/// `String` this is the order `Ord` gives, since UTF-8 preserves it.
pub open spec fn lex_lt(a: Seq<char>, b: Seq<char>) -> bool
    decreases a.len(),
{
    if a.len() == 0 {
        b.len() > 0
    } else if b.len() == 0 {
        false
    } else if a[0] != b[0] {
        a[0] < b[0]
    } else {
        lex_lt(a.drop_first(), b.drop_first())
    }
}

/// `lex_lt` is a strict total order.
pub proof fn lemma_lex_order(a: Seq<char>, b: Seq<char>, c: Seq<char>)
    ensures
        !lex_lt(a, a),
        a != b ==> lex_lt(a, b) || lex_lt(b, a),
        !(lex_lt(a, b) && lex_lt(b, a)),
        lex_lt(a, b) && lex_lt(b, c) ==> lex_lt(a, c),
    decreases a.len() + b.len() + c.len(),
{
    if a.len() > 0 && b.len() > 0 {
    }
    if a.len() > 0 && b.len() > 0 && c.len() > 0 {
        lemma_lex_order(a.drop_first(), b.drop_first(), c.drop_first());
        if a[0] == b[0] && a.drop_first() == b.drop_first() {
            assert(a == b) by {
                assert(a == seq![a[0]] + a.drop_first());
                assert(b == seq![b[0]] + b.drop_first());
            }
        }
    } else if a.len() > 0 && b.len() > 0 {
        lemma_lex_order(a.drop_first(), b.drop_first(), seq![]);
        if a[0] == b[0] && a.drop_first() == b.drop_first() {
            assert(a == b) by {
                assert(a == seq![a[0]] + a.drop_first());
                assert(b == seq![b[0]] + b.drop_first());
            }
        }
    } else if a.len() > 0 {
        lemma_lex_order(a.drop_first(), seq![], seq![]);
    }
}

/// `a < b` for string slices, in `lex_lt` order.
pub fn lex_less(a: &str, b: &str) -> (r: bool)
    ensures
        r == lex_lt(a@, b@),
{
    let av = chars_of(a);
    let bv = chars_of(b);
    let mut i: usize = 0;
    while i < av.len() && i < bv.len() && av[i] == bv[i]
        invariant
            av@ == a@,
            bv@ == b@,
            i <= a@.len(),
            i <= b@.len(),
            lex_lt(a@, b@) == lex_lt(a@.skip(i as int), b@.skip(i as int)),
        decreases a@.len() - i,
    {
        proof {
            assert(a@.skip(i as int).drop_first() == a@.skip(i + 1));
            assert(b@.skip(i as int).drop_first() == b@.skip(i + 1));
        }
        i = i + 1;
    }
    if i == av.len() {
        i < bv.len()
    } else if i == bv.len() {
        false
    } else {
        av[i] < bv[i]
    }
}


/// `base` with `part` appended as a path component, as `PathBuf::push` does
/// with '/' as the separator: an absolute `part` replaces `base`.
pub open spec fn path_join(base: Seq<char>, part: Seq<char>) -> Seq<char> {
    if part.len() > 0 && part[0] == '/' {
        part
    } else if base.len() == 0 || base.last() == '/' {
        base + part
    } else {
        base + seq!['/'] + part
    }
}

/// `Path::new(base).join(part)`, as text.
pub fn join_path(base: &str, part: &str) -> (r: String)
    ensures
        r@ == path_join(base@, part@),
{
    let pv = chars_of(part);
    if pv.len() > 0 && pv[0] == '/' {
        return owned(part);
    }
    let bv = chars_of(base);
    let mut r = owned(base);
    if bv.len() > 0 && bv[bv.len() - 1] != '/' {
        push_char(&mut r, '/');
    }
    push_str(&mut r, part);
    proof {
        if base@.len() > 0 && base@.last() != '/' {
            assert(base@.push('/') + part@ == base@ + seq!['/'] + part@);
        }
    }
    r
}

/// `a` followed by `b`.
pub fn concat(a: &str, b: &str) -> (r: String)
    ensures
        r@ == a@ + b@,
{
    let mut r = owned(a);
    push_str(&mut r, b);
    r
}


/// In non-decreasing `lex_lt` order.
pub open spec fn sorted_text(v: Seq<Seq<char>>) -> bool {
    forall|i: int, j: int| 0 <= i < j < v.len() ==> !lex_lt(v[j], v[i])
}

/// The strings of `v` in non-decreasing order (`sort`).
pub fn sort_strings(v: Vec<String>) -> (r: Vec<String>)
    ensures
        sorted_text(views(r@)),
        views(r@).to_multiset() == views(v@).to_multiset(),
{
    let mut out: Vec<String> = Vec::new();
    let n = v.len();
    let mut i: usize = 0;
    while i < n
        invariant
            n == v@.len(),
            i <= n,
            sorted_text(views(out@)),
            views(out@).to_multiset() == views(v@).take(i as int).to_multiset(),
        decreases n - i,
    {
        let x = v[i].clone();
        let mut p: usize = 0;
        while p < out.len() && !lex_less(x.as_str(), out[p].as_str())
            invariant
                p <= out@.len(),
                forall|k: int| 0 <= k < p ==> !lex_lt(x@, #[trigger] out@[k]@),
            decreases out@.len() - p,
        {
            p = p + 1;
        }
        let ghost before = out@;
        let ghost xv = x@;
        proof {
            assert(views(v@).take(i + 1) == views(v@).take(i as int).push(xv));
            assert(views(before).insert(p as int, xv).to_multiset() == views(before).to_multiset().insert(xv)) by {
                vstd::seq_lib::to_multiset_insert(views(before), p as int, xv);
            }
            assert(views(v@).take(i as int).push(xv).to_multiset() == views(v@).take(i as int).to_multiset().insert(xv)) by {
                vstd::seq_lib::to_multiset_build(views(v@).take(i as int), xv);
            }
        }
        out.insert(p, x);
        proof {
            assert(views(out@) == views(before).insert(p as int, xv));
            assert forall|a: int, b: int| 0 <= a < b < out@.len() implies !lex_lt(views(out@)[b], views(out@)[a]) by {
                let va = views(out@)[a];
                let vb = views(out@)[b];
                if a < p && b == p {
                    assert(va == before[a]@);
                    lemma_lex_order(xv, va, xv);
                } else if a == p {
                    assert(vb == before[b - 1]@);
                    if p < before.len() {
                        assert(lex_lt(xv, before[p as int]@));
                        if b - 1 > p {
                            lemma_lex_order(before[p as int]@, vb, xv);
                            lemma_lex_order(xv, before[p as int]@, vb);
                            lemma_lex_order(vb, before[p as int]@, xv);
                            assert(views(before)[b - 1] == before[b - 1]@);
                            assert(views(before)[p as int] == before[p as int]@);
                            assert(!lex_lt(before[b - 1]@, before[p as int]@));
                        }
                        lemma_lex_order(vb, xv, before[p as int]@);
                        lemma_lex_order(before[p as int]@, vb, xv);
                        lemma_lex_order(xv, vb, before[p as int]@);
                    }
                } else if a < p && b > p {
                    assert(va == before[a]@);
                    assert(vb == before[b - 1]@);
                } else if a > p {
                    assert(va == before[a - 1]@);
                    assert(vb == before[b - 1]@);
                } else {
                    assert(va == before[a]@);
                    assert(vb == before[b]@);
                }
            }
        }
        i = i + 1;
    }
    assert(views(v@).take(n as int) == views(v@));
    out
}


/// `str::ends_with` for a string pattern.
pub fn ends_with(s: &str, p: &str) -> (b: bool)
    ensures
        b == p@.is_suffix_of(s@),
{
    let sv = chars_of(s);
    let pv = chars_of(p);
    if pv.len() > sv.len() {
        return false;
    }
    let b = matches_at(&sv, &pv, sv.len() - pv.len());
    assert(b == (s@.subrange(s@.len() - p@.len(), s@.len() as int) == p@));
    b
}


/// Non-strict `lex_lt`.
pub open spec fn lex_le() -> spec_fn(Seq<char>, Seq<char>) -> bool {
    |a: Seq<char>, b: Seq<char>| !lex_lt(b, a)
}

pub proof fn lemma_lex_le_total()
    ensures
        vstd::relations::total_ordering(lex_le()),
{
    let le = lex_le();
    assert forall|x: Seq<char>| #[trigger] le(x, x) by {
        lemma_lex_order(x, x, x);
    }
    assert forall|x: Seq<char>, y: Seq<char>| #[trigger] le(x, y) && #[trigger] le(y, x) implies x == y by {
        lemma_lex_order(x, y, x);
    }
    assert forall|x: Seq<char>, y: Seq<char>, z: Seq<char>| #[trigger] le(x, y) && #[trigger] le(y, z) implies le(x, z) by {
        lemma_lex_order(z, y, x);
        lemma_lex_order(y, x, z);
        lemma_lex_order(z, x, y);
        lemma_lex_order(x, z, y);
        lemma_lex_order(y, z, x);
    }
    assert forall|x: Seq<char>, y: Seq<char>| #[trigger] le(x, y) || #[trigger] le(y, x) by {
        lemma_lex_order(x, y, x);
    }
}

/// The strings of `v` in sorted order.
pub open spec fn sorted_copy(v: Seq<Seq<char>>) -> Seq<Seq<char>> {
    choose|w: Seq<Seq<char>>| sorted_text(w) && w.to_multiset() == v.to_multiset()
}

/// A sorted rearrangement of `v` is the sorted copy: there is only one.
pub proof fn lemma_sorted_copy(v: Seq<Seq<char>>, w: Seq<Seq<char>>)
    requires
        sorted_text(w),
        w.to_multiset() == v.to_multiset(),
    ensures
        sorted_copy(v) == w,
{
    let c = sorted_copy(v);
    assert(sorted_text(c) && c.to_multiset() == v.to_multiset());
    lemma_lex_le_total();
    assert(vstd::relations::sorted_by(c, lex_le()));
    assert(vstd::relations::sorted_by(w, lex_le()));
    vstd::seq_lib::lemma_sorted_unique(c, w, lex_le());
}


/// The last component of a '/'-separated path, as `Path::file_name` gives
/// it: empty and "." components are skipped, and a path that ends in ".."
/// or has no components has none.
pub open spec fn base_name(p: Seq<char>) -> Option<Seq<char>> {
    let parts = tokens(Split::Slash, p).filter(|t: Seq<char>| t != "."@);
    if parts.len() == 0 {
        None
    } else if parts.last() == ".."@ {
        None
    } else {
        Some(parts.last())
    }
}

/// `Path::new(p).file_name()`, as text.
pub fn file_name(p: &str) -> (r: Option<String>)
    ensures
        r is None <==> base_name(p@) is None,
        r matches Some(n) ==> base_name(p@) == Some(n@),
{
    let all = split_words(Split::Slash, p);
    let ghost f = |t: Seq<char>| t != "."@;
    let mut last: Option<usize> = None;
    let mut i: usize = 0;
    while i < all.len()
        invariant
            i <= all@.len(),
            f == (|t: Seq<char>| t != "."@),
            views(all@) == tokens(Split::Slash, p@),
            last is None ==> views(all@).take(i as int).filter(f).len() == 0,
            last matches Some(k) ==> k < i && views(all@).take(i as int).filter(f).len() > 0
                && views(all@).take(i as int).filter(f).last() == all@[k as int]@,
        decreases all@.len() - i,
    {
        proof {
            assert(views(all@).take(i + 1) == views(all@).take(i as int).push(all@[i as int]@));
            views(all@).take(i as int).lemma_filter_push(all@[i as int]@, f);
        }
        if !same_text(all[i].as_str(), ".") {
            last = Some(i);
        }
        i = i + 1;
    }
    assert(views(all@).take(all@.len() as int) == views(all@));
    match last {
        None => None,
        Some(k) => {
            if same_text(all[k].as_str(), "..") {
                None
            } else {
                Some(owned(all[k].as_str()))
            }
        },
    }
}

/// An ASCII decimal digit.
pub open spec fn is_digit(c: char) -> bool {
    '0' <= c && c <= '9'
}

/// The number a run of decimal digits spells.
pub open spec fn digits_value(s: Seq<char>) -> nat
    decreases s.len(),
{
    if s.len() == 0 {
        0
    } else {
        digits_value(s.drop_last()) * 10 + (s.last() as nat - 48) as nat
    }
}

pub proof fn lemma_digits_value_bound(s: Seq<char>)
    requires
        forall|k: int| 0 <= k < s.len() ==> is_digit(#[trigger] s[k]),
    ensures
        digits_value(s) < pow10(s.len()),
    decreases s.len(),
{
    if s.len() > 0 {
        lemma_digits_value_bound(s.drop_last());
        assert(s.drop_last().len() == s.len() - 1);
        assert(is_digit(s[s.len() - 1]));
        assert(digits_value(s.drop_last()) + 1 <= pow10((s.len() - 1) as nat));
        assert(pow10(s.len()) == 10 * pow10((s.len() - 1) as nat));
    }
}

pub open spec fn pow10(n: nat) -> nat
    decreases n,
{
    if n == 0 { 1 } else { 10 * pow10((n - 1) as nat) }
}


/// The digits of an unsigned decimal number, after an optional '+'.
pub open spec fn unsigned_digits(s: Seq<char>) -> Seq<char> {
    if s.len() > 0 && s[0] == '+' {
        s.drop_first()
    } else {
        s
    }
}

/// What `str::parse::<u64>` gives: a '+' may lead, then one or more ASCII
/// digits whose value fits.
pub open spec fn spec_parse_u64(s: Seq<char>) -> Option<u64> {
    let d = unsigned_digits(s);
    if d.len() > 0 && (forall|k: int| 0 <= k < d.len() ==> is_digit(#[trigger] d[k]))
        && digits_value(d) <= u64::MAX {
        Some(digits_value(d) as u64)
    } else {
        None
    }
}

/// A digit string is worth at least any of its prefixes.
pub proof fn lemma_digits_value_grows(s: Seq<char>, j: int)
    requires
        0 <= j <= s.len(),
        forall|k: int| 0 <= k < s.len() ==> is_digit(#[trigger] s[k]),
    ensures
        digits_value(s.take(j)) <= digits_value(s),
    decreases s.len() - j,
{
    if j < s.len() {
        let t = s.take(j + 1);
        assert(t.drop_last() == s.take(j));
        assert(is_digit(t.last()));
        lemma_digits_value_grows(s, j + 1);
    } else {
        assert(s.take(j) == s);
    }
}

/// `s.parse::<u64>().ok()`.
pub fn parse_u64(s: &str) -> (r: Option<u64>)
    ensures
        r == spec_parse_u64(s@),
{
    let v = chars_of(s);
    let start: usize = if v.len() > 0 && v[0] == '+' { 1 } else { 0 };
    let ghost d = unsigned_digits(s@);
    assert(d == v@.subrange(start as int, v@.len() as int));
    if start == v.len() {
        return None;
    }
    let mut acc: u64 = 0;
    let mut i: usize = start;
    while i < v.len()
        invariant
            v@ == s@,
            start <= i <= v@.len(),
            d == unsigned_digits(s@),
            d == v@.subrange(start as int, v@.len() as int),
            forall|k: int| 0 <= k < i - start ==> is_digit(#[trigger] d[k]),
            acc == digits_value(d.take(i - start)),
        decreases v@.len() - i,
    {
        let c = v[i];
        if !('0' <= c && c <= '9') {
            assert(!is_digit(d[i - start]));
            return None;
        }
        proof {
            let t = d.take(i - start + 1);
            assert(t.drop_last() == d.take(i - start));
            assert(t.last() == c);
        }
        let digit = (c as u32 - 48) as u64;
        match acc.checked_mul(10) {
            None => {
                proof {
                    if forall|k: int| 0 <= k < d.len() ==> is_digit(#[trigger] d[k]) {
                        lemma_digits_value_grows(d, i - start + 1);
                    }
                }
                return None;
            },
            Some(m) => match m.checked_add(digit) {
                None => {
                    proof {
                        if forall|k: int| 0 <= k < d.len() ==> is_digit(#[trigger] d[k]) {
                            lemma_digits_value_grows(d, i - start + 1);
                        }
                    }
                    return None;
                },
                Some(n) => {
                    acc = n;
                },
            },
        }
        i = i + 1;
    }
    assert(d.take(d.len() as int) == d);
    Some(acc)
}

/// The index of the last '.' in `n`.
pub open spec fn last_dot(n: Seq<char>, p: int) -> bool {
    0 <= p < n.len() && n[p] == '.' && forall|q: int| p < q < n.len() ==> n[q] != '.'
}

/// `Path::extension` of a file name: what follows its last '.', unless that
/// dot opens the name or the name is "..".
pub open spec fn extension(n: Seq<char>) -> Option<Seq<char>> {
    if n == ".."@ {
        None
    } else if exists|p: int| last_dot(n, p) {
        let p = choose|p: int| last_dot(n, p);
        if p == 0 {
            None
        } else {
            Some(n.subrange(p + 1, n.len() as int))
        }
    } else {
        None
    }
}

/// Where the extension's dot stands in the file name `n`.
fn dot_in(n: &str) -> (r: Option<usize>)
    ensures
        r is None <==> extension(n@) is None,
        r matches Some(d) ==> 1 <= d < n@.len() && extension(n@) == Some(
            n@.subrange(d + 1, n@.len() as int),
        ),
{
    if same_text(n, "..") {
        return None;
    }
    let v = chars_of(n);
    let mut p: usize = v.len();
    while p > 0
        invariant
            p <= v@.len(),
            v@ == n@,
            forall|q: int| p <= q < v@.len() ==> v@[q] != '.',
        ensures
            p <= v@.len(),
            forall|q: int| p <= q < v@.len() ==> v@[q] != '.',
            p > 0 ==> v@[p - 1] == '.',
        decreases p,
    {
        if v[p - 1] == '.' {
            break;
        }
        p = p - 1;
    }
    if p == 0 {
        assert forall|k: int| !last_dot(n@, k) by {
            if 0 <= k < v@.len() {
                assert(v@[k] != '.');
            }
        }
        return None;
    }
    let dot = p - 1;
    proof {
        assert(last_dot(n@, dot as int));
        assert forall|k: int| last_dot(n@, k) implies k == dot by {
            if k < dot {
                assert(n@[dot as int] == '.');
            }
            if k > dot {
                assert(v@[k] != '.');
            }
        }
    }
    if dot == 0 {
        return None;
    }
    Some(dot)
}

/// The extension of the file name `n`, as `Path::extension` gives it.
pub fn extension_of(n: &str) -> (r: Option<String>)
    ensures
        r is None <==> extension(n@) is None,
        r matches Some(e) ==> extension(n@) == Some(e@),
{
    match dot_in(n) {
        None => None,
        Some(d) => {
            let v = chars_of(n);
            let len = v.len();
            Some(string_of(&v, d + 1, len))
        },
    }
}

/// `p` without trailing separators and trailing "." components: where the
/// file name, if there is one, ends.
pub open spec fn strip_tail(p: Seq<char>) -> Seq<char>
    decreases p.len(),
{
    if p.len() > 0 && p.last() == '/' {
        strip_tail(p.drop_last())
    } else if p.len() >= 2 && p.last() == '.' && p[p.len() - 2] == '/' {
        strip_tail(p.drop_last())
    } else {
        p
    }
}

/// Where the last component of `q` starts: just past its last '/'.
pub open spec fn segment_start(q: Seq<char>) -> int
    decreases q.len(),
{
    if q.len() == 0 {
        0
    } else if q.last() == '/' {
        q.len() as int
    } else {
        segment_start(q.drop_last())
    }
}

/// The last component of `q`.
pub open spec fn last_segment(q: Seq<char>) -> Seq<char> {
    q.subrange(segment_start(q), q.len() as int)
}

/// `Path::with_extension`: the file name's extension replaced by `e` (or
/// added when it has none; dropped when `e` is empty), and anything after
/// the file name cut; a path without a file name is left as it is.
pub open spec fn spec_with_extension(p: Seq<char>, e: Seq<char>) -> Seq<char> {
    let q = strip_tail(p);
    let s = last_segment(q);
    if s.len() == 0 || s == "."@ || s == ".."@ {
        p
    } else {
        let cut = match extension(s) {
            Some(x) => q.len() - x.len() - 1,
            None => q.len() as int,
        };
        if e.len() == 0 {
            q.take(cut)
        } else {
            q.take(cut) + seq!['.'] + e
        }
    }
}

proof fn lemma_strip_tail_take(p: Seq<char>, n: int)
    requires
        0 < n <= p.len(),
        p[n - 1] == '/' || (n >= 2 && p[n - 1] == '.' && p[n - 2] == '/'),
    ensures
        strip_tail(p.take(n)) == strip_tail(p.take(n - 1)),
{
    assert(p.take(n).drop_last() == p.take(n - 1));
}

proof fn lemma_segment_start_take(q: Seq<char>, s: int)
    requires
        0 < s <= q.len(),
        q[s - 1] != '/',
    ensures
        segment_start(q.take(s)) == segment_start(q.take(s - 1)),
{
    assert(q.take(s).drop_last() == q.take(s - 1));
}

/// Where `strip_tail(v)` ends.
fn tail_end(v: &Vec<char>) -> (n: usize)
    ensures
        n <= v@.len(),
        strip_tail(v@) == v@.take(n as int),
{
    let mut n: usize = v.len();
    assert(v@.take(n as int) == v@);
    while n > 0 && (v[n - 1] == '/' || (n >= 2 && v[n - 1] == '.' && v[n - 2] == '/'))
        invariant
            n <= v@.len(),
            strip_tail(v@) == strip_tail(v@.take(n as int)),
        decreases n,
    {
        proof {
            lemma_strip_tail_take(v@, n as int);
        }
        n = n - 1;
    }
    proof {
        let q = v@.take(n as int);
        if n > 0 {
            assert(q.last() == v@[n - 1]);
        }
        if n >= 2 {
            assert(q[q.len() - 2] == v@[n - 2]);
        }
    }
    n
}

/// Where the last component of `v[..n]` starts.
fn segment_begin(v: &Vec<char>, n: usize) -> (s: usize)
    requires
        n <= v@.len(),
    ensures
        s <= n,
        s == segment_start(v@.take(n as int)),
{
    let ghost q = v@.take(n as int);
    let mut s: usize = n;
    assert(q.take(s as int) == q);
    while s > 0 && v[s - 1] != '/'
        invariant
            s <= n <= v@.len(),
            q == v@.take(n as int),
            segment_start(q) == segment_start(q.take(s as int)),
        decreases s,
    {
        proof {
            lemma_segment_start_take(q, s as int);
        }
        s = s - 1;
    }
    assert(segment_start(q.take(s as int)) == s) by {
        if s > 0 {
            assert(q.take(s as int).last() == '/');
        }
    }
    s
}

/// `Path::new(p).with_extension(e)`, as text.
pub fn with_extension(p: &str, e: &str) -> (r: String)
    ensures
        r@ == spec_with_extension(p@, e@),
{
    let v = chars_of(p);
    let n = tail_end(&v);
    let s = segment_begin(&v, n);
    let ghost q = p@.take(n as int);
    let seg = string_of(&v, s, n);
    assert(seg@ == last_segment(q));
    if s == n || same_text(seg.as_str(), ".") || same_text(seg.as_str(), "..") {
        return owned(p);
    }
    let cut = match dot_in(seg.as_str()) {
        None => n,
        Some(d) => s + d,
    };
    let mut r = string_of(&v, 0, cut);
    assert(r@ == q.take(cut as int));
    let ev = chars_of(e);
    if ev.len() > 0 {
        push_char(&mut r, '.');
        push_str(&mut r, e);
    }
    r
}

/// `s` with repeats dropped, first occurrences kept in order.
pub open spec fn first_occurrences(s: Seq<Seq<char>>) -> Seq<Seq<char>>
    decreases s.len(),
{
    if s.len() == 0 {
        s
    } else {
        let d = first_occurrences(s.drop_last());
        if d.contains(s.last()) {
            d
        } else {
            d.push(s.last())
        }
    }
}

/// Dropping repeats keeps every string once and nothing else.
pub proof fn lemma_first_occurrences(s: Seq<Seq<char>>)
    ensures
        first_occurrences(s).no_duplicates(),
        first_occurrences(s).to_set() == s.to_set(),
    decreases s.len(),
{
    if s.len() > 0 {
        let rest = s.drop_last();
        lemma_first_occurrences(rest);
        let d = first_occurrences(rest);
        rest.lemma_push_to_set_commute(s.last());
        assert(rest.push(s.last()) == s);
        if d.contains(s.last()) {
            assert(d.to_set().insert(s.last()) == d.to_set());
        } else {
            d.lemma_push_to_set_commute(s.last());
            assert forall|i: int, j: int| 0 <= i < j < d.push(s.last()).len() implies d.push(s.last())[i] != d.push(s.last())[j] by {
                if j == d.len() {
                    assert(d.contains(d[i]));
                }
            }
        }
    } else {
        assert(s.to_set() == Set::<Seq<char>>::empty());
    }
}

/// Two lists without repeats that hold the same strings hold them the same
/// number of times.
pub proof fn lemma_same_set_same_multiset(a: Seq<Seq<char>>, b: Seq<Seq<char>>)
    requires
        a.no_duplicates(),
        b.no_duplicates(),
        a.to_set() == b.to_set(),
    ensures
        a.to_multiset() == b.to_multiset(),
{
    broadcast use vstd::seq_lib::group_to_multiset_ensures;
    a.lemma_multiset_has_no_duplicates();
    b.lemma_multiset_has_no_duplicates();
    assert forall|x: Seq<char>| a.to_multiset().count(x) == b.to_multiset().count(x) by {
        assert(a.to_set().contains(x) == a.contains(x));
        assert(b.to_set().contains(x) == b.contains(x));
        if a.contains(x) {
            assert(a.to_multiset().contains(x));
            assert(b.to_multiset().contains(x));
        }
    }
    assert(a.to_multiset() =~= b.to_multiset());
}

} // verus!
