//! Character-level text operations on which the window, launcher and
//! settings logic is built, each proved against a short statement of what it
//! computes.
use vstd::prelude::*;

verus! {

/// `String::push` appends one character to the end of the string, as the
/// standard library documents.
pub assume_specification[ String::push ](s: &mut String, ch: char)
    ensures
        final(s)@ == old(s)@.push(ch),
;

/// What `str::to_lowercase` returns for a string (the Unicode lowercase
/// mapping, which takes pages to state).
pub uninterp spec fn lowercase_of(s: Seq<char>) -> Seq<char>;

/// Calls `str::to_lowercase`. Claimed: the result is `lowercase_of` of the
/// argument's characters, a function of those characters alone.
#[verifier::external_body]
pub(crate) fn lowercase(s: &str) -> (out: String)
    ensures
        out@ == lowercase_of(s@),
{
    s.to_lowercase()
}

// ------------------------------------------------------------------
// Statements
// ------------------------------------------------------------------
/// The Unicode `White_Space` property, which `char::is_whitespace` tests.
pub open spec fn is_white_space(c: char) -> bool {
    let u = c as u32;
    ||| 0x9 <= u <= 0xd
    ||| u == 0x20
    ||| u == 0x85
    ||| u == 0xa0
    ||| u == 0x1680
    ||| 0x2000 <= u <= 0x200a
    ||| u == 0x2028
    ||| u == 0x2029
    ||| u == 0x202f
    ||| u == 0x205f
    ||| u == 0x3000
}

/// The sets of characters that the trimming operations strip.
#[derive(Clone, Copy, PartialEq, Eq, Debug)]
pub enum CharClass {
    /// Unicode white space, as `str::trim` strips it.
    WhiteSpace,
    /// A double or a single quotation mark.
    QuoteMark,
    /// A backslash.
    Backslash,
}

pub open spec fn in_class(k: CharClass, c: char) -> bool {
    match k {
        CharClass::WhiteSpace => is_white_space(c),
        CharClass::QuoteMark => c == '"' || c == '\'',
        CharClass::Backslash => c == '\\',
    }
}

/// `s` without its leading characters of class `k`.
pub open spec fn trim_start_class(s: Seq<char>, k: CharClass) -> Seq<char>
    decreases s.len(),
{
    if s.len() > 0 && in_class(k, s[0]) {
        trim_start_class(s.drop_first(), k)
    } else {
        s
    }
}

/// `s` without its trailing characters of class `k`.
pub open spec fn trim_end_class(s: Seq<char>, k: CharClass) -> Seq<char>
    decreases s.len(),
{
    if s.len() > 0 && in_class(k, s.last()) {
        trim_end_class(s.drop_last(), k)
    } else {
        s
    }
}

/// `s` without its leading and trailing characters of class `k`.
pub open spec fn trim_class(s: Seq<char>, k: CharClass) -> Seq<char> {
    trim_end_class(trim_start_class(s, k), k)
}

/// The pieces of `s` between the occurrences of `c`, as `str::split` yields
/// them: always at least one piece.
pub open spec fn split_char(s: Seq<char>, c: char) -> Seq<Seq<char>>
    decreases s.len(),
{
    if s.len() == 0 {
        seq![Seq::<char>::empty()]
    } else {
        let r = split_char(s.drop_last(), c);
        if s.last() == c {
            r.push(Seq::<char>::empty())
        } else {
            r.update(r.len() - 1, r.last().push(s.last()))
        }
    }
}

/// `p` without one trailing carriage return.
pub open spec fn strip_cr(p: Seq<char>) -> Seq<char> {
    if p.len() > 0 && p.last() == '\r' {
        p.drop_last()
    } else {
        p
    }
}

/// The lines of `s`, as `str::lines` yields them: split at `\n`, each line
/// that ended in `\n` loses one `\r` before it, and a final line ending adds
/// no empty line.
pub open spec fn lines_of(s: Seq<char>) -> Seq<Seq<char>> {
    let parts = split_char(s, '\n');
    let n = parts.len();
    let count = if parts.last().len() == 0 { n - 1 } else { n as int };
    Seq::new(count as nat, |i: int| if i < n - 1 { strip_cr(parts[i]) } else { parts[i] })
}

/// `n` occurs in `h` at position `i`.
pub open spec fn occurs_at(h: Seq<char>, n: Seq<char>, i: int) -> bool {
    0 <= i && i + n.len() <= h.len() && h.subrange(i, i + n.len()) == n
}

/// `n` occurs somewhere in `h` (the empty string occurs everywhere).
pub open spec fn contains_seq(h: Seq<char>, n: Seq<char>) -> bool {
    exists|i: int| occurs_at(h, n, i)
}

/// The first position at or after `i` where `n` occurs in `h`.
pub open spec fn find_from(h: Seq<char>, n: Seq<char>, i: int) -> Option<int>
    decreases h.len() + 1 - i,
{
    if i < 0 || i + n.len() > h.len() {
        None
    } else if occurs_at(h, n, i) {
        Some(i)
    } else {
        find_from(h, n, i + 1)
    }
}

/// The first position where `n` occurs in `h`, as `str::find` gives it
/// (counted in characters).
pub open spec fn find_seq(h: Seq<char>, n: Seq<char>) -> Option<int> {
    find_from(h, n, 0)
}

/// The part of `s` after the first occurrence of `c`, if `c` occurs.
pub open spec fn after_first(s: Seq<char>, c: char) -> Option<Seq<char>>
    decreases s.len(),
{
    if s.len() == 0 {
        None
    } else if s[0] == c {
        Some(s.drop_first())
    } else {
        after_first(s.drop_first(), c)
    }
}

/// The optional string's characters.
pub open spec fn opt_view(o: Option<String>) -> Option<Seq<char>> {
    match o {
        Some(x) => Some(x@),
        None => None,
    }
}

/// `h` begins with `p`.
pub open spec fn has_prefix(h: Seq<char>, p: Seq<char>) -> bool {
    p.len() <= h.len() && h.subrange(0, p.len() as int) == p
}

/// `h` ends with `p`.
pub open spec fn has_suffix(h: Seq<char>, p: Seq<char>) -> bool {
    p.len() <= h.len() && h.subrange(h.len() - p.len(), h.len() as int) == p
}

/// The part of `s` after the last occurrence of `c`; all of `s` if `c` does
/// not occur.
pub open spec fn after_last(s: Seq<char>, c: char) -> Seq<char>
    decreases s.len(),
{
    if s.len() == 0 {
        s
    } else if s.last() == c {
        Seq::<char>::empty()
    } else {
        after_last(s.drop_last(), c).push(s.last())
    }
}

/// `s` with every `from` replaced by `to`.
pub open spec fn replace_char(s: Seq<char>, from: char, to: char) -> Seq<char> {
    s.map_values(|x: char| if x == from { to } else { x })
}

/// The ASCII lowercase of a character, as a code point.
pub open spec fn ascii_lower(c: char) -> u32 {
    let u = c as u32;
    if 0x41 <= u <= 0x5a {
        (u + 0x20) as u32
    } else {
        u
    }
}

/// `a` and `b` are equal up to ASCII case, as `str::eq_ignore_ascii_case`
/// decides.
pub open spec fn eq_ascii_ci(a: Seq<char>, b: Seq<char>) -> bool {
    a.len() == b.len() && forall|i: int| 0 <= i < a.len() ==> ascii_lower(a[i]) == ascii_lower(b[i])
}

/// `a` sorts strictly before `b` in the order of `str`: lexicographic by
/// code point, which is the byte order of their UTF-8 encodings.
pub open spec fn lex_less(a: Seq<char>, b: Seq<char>) -> bool
    decreases a.len(),
{
    if a.len() == 0 {
        b.len() > 0
    } else if b.len() == 0 {
        false
    } else if a[0] != b[0] {
        a[0] < b[0]
    } else {
        lex_less(a.drop_first(), b.drop_first())
    }
}

/// The views of a vector of strings.
pub open spec fn views(v: Seq<String>) -> Seq<Seq<char>> {
    v.map_values(|x: String| x@)
}

// ------------------------------------------------------------------
// Lemmas
// ------------------------------------------------------------------
pub proof fn lemma_split_char_nonempty(s: Seq<char>, c: char)
    ensures
        split_char(s, c).len() >= 1,
    decreases s.len(),
{
    if s.len() > 0 {
        lemma_split_char_nonempty(s.drop_last(), c);
    }
}

/// Splitting `a`, a separator and then `b` free of separators gives the
/// pieces of `a` followed by `b`.
pub proof fn lemma_split_char_append(a: Seq<char>, b: Seq<char>, c: char)
    requires
        !b.contains(c),
    ensures
        split_char(a.push(c) + b, c) == split_char(a, c).push(b),
    decreases b.len(),
{
    lemma_split_char_nonempty(a, c);
    if b.len() == 0 {
        assert(b =~= Seq::<char>::empty());
        assert(a.push(c) + b =~= a.push(c));
        assert(a.push(c).drop_last() =~= a);
        assert(a.push(c).last() == c);
    } else {
        let bl = b.drop_last();
        assert(!bl.contains(c)) by {
            if bl.contains(c) {
                let j = choose|j: int| 0 <= j < bl.len() && bl[j] == c;
                assert(b[j] == c);
            }
        }
        lemma_split_char_append(a, bl, c);
        let whole = a.push(c) + b;
        assert(whole.drop_last() =~= a.push(c) + bl);
        assert(whole.last() == b.last());
        assert(b.last() != c) by {
            assert(b[b.len() - 1] == b.last());
        }
        assert(bl.push(b.last()) =~= b);
        let r = split_char(a.push(c) + bl, c);
        assert(split_char(whole, c) == r.update(r.len() - 1, r.last().push(whole.last())));
        assert(r == split_char(a, c).push(bl));
        assert(r.update(r.len() - 1, r.last().push(whole.last())) =~= split_char(a, c).push(b));
        assert(bl.push(b.last()) =~= b);
    }
}

/// A string free of separators is a single piece.
pub proof fn lemma_split_char_single(b: Seq<char>, c: char)
    requires
        !b.contains(c),
    ensures
        split_char(b, c) == seq![b],
    decreases b.len(),
{
    if b.len() > 0 {
        let bl = b.drop_last();
        assert(!bl.contains(c)) by {
            if bl.contains(c) {
                let j = choose|j: int| 0 <= j < bl.len() && bl[j] == c;
                assert(b[j] == c);
            }
        }
        lemma_split_char_single(bl, c);
        assert(b.last() != c) by {
            assert(b[b.len() - 1] == b.last());
        }
        assert(bl.push(b.last()) =~= b);
        assert(seq![bl].update(0, bl.push(b.last())) =~= seq![b]);
    } else {
        assert(b =~= Seq::<char>::empty());
    }
}

/// The part after the last `c` holds no `c`, and is a suffix of `s`.
pub proof fn lemma_after_last(s: Seq<char>, c: char)
    ensures
        !after_last(s, c).contains(c),
        after_last(s, c).len() <= s.len(),
        after_last(s, c) == s.subrange(s.len() - after_last(s, c).len(), s.len() as int),
    decreases s.len(),
{
    if s.len() > 0 && s.last() != c {
        lemma_after_last(s.drop_last(), c);
        let r = after_last(s.drop_last(), c);
        assert(!r.push(s.last()).contains(c)) by {
            if r.push(s.last()).contains(c) {
                let j = choose|j: int| 0 <= j < r.len() + 1 && r.push(s.last())[j] == c;
                if j < r.len() {
                    assert(r[j] == c);
                }
            }
        }
        assert(r.push(s.last()) =~= s.subrange(s.len() - r.len() - 1, s.len() as int));
    } else if s.len() > 0 {
        assert(Seq::<char>::empty() =~= s.subrange(s.len() as int, s.len() as int));
    } else {
        assert(s =~= s.subrange(0, 0));
    }
}

/// A string free of `c` is its own part after the last `c`.
pub proof fn lemma_after_last_absent(s: Seq<char>, c: char)
    requires
        !s.contains(c),
    ensures
        after_last(s, c) == s,
    decreases s.len(),
{
    if s.len() > 0 {
        let sl = s.drop_last();
        assert(!sl.contains(c)) by {
            if sl.contains(c) {
                let j = choose|j: int| 0 <= j < sl.len() && sl[j] == c;
                assert(s[j] == c);
            }
        }
        lemma_after_last_absent(sl, c);
        assert(s.last() != c) by {
            assert(s[s.len() - 1] == s.last());
        }
        assert(sl.push(s.last()) =~= s);
    }
}

/// Trimming a trimmed string changes nothing.
pub proof fn lemma_trim_start_class_stops(s: Seq<char>, k: CharClass)
    ensures
        trim_start_class(s, k).len() == 0 || !in_class(k, trim_start_class(s, k)[0]),
        trim_start_class(s, k).len() <= s.len(),
        trim_start_class(s, k) == s.subrange(s.len() - trim_start_class(s, k).len(), s.len() as int),
    decreases s.len(),
{
    if s.len() > 0 && in_class(k, s[0]) {
        lemma_trim_start_class_stops(s.drop_first(), k);
        let r = trim_start_class(s.drop_first(), k);
        assert(s.drop_first().subrange(s.len() - 1 - r.len(), s.len() - 1) =~= s.subrange(
            s.len() - r.len(),
            s.len() as int,
        ));
    } else {
        assert(s =~= s.subrange(0, s.len() as int));
    }
}

// ------------------------------------------------------------------
// Operations
// ------------------------------------------------------------------
/// The characters of `s`, in order.
pub fn chars_of(s: &str) -> (out: Vec<char>)
    ensures
        out@ == s@,
{
    let mut out: Vec<char> = Vec::new();
    for c in it: s.chars()
        invariant
            out@ == it.seq().take(it.index() as int),
    {
        out.push(c);
    }
    out
}

/// A string holding exactly the characters `cs[from..to]`.
pub fn string_of_range(cs: &[char], from: usize, to: usize) -> (out: String)
    requires
        from <= to <= cs@.len(),
    ensures
        out@ == cs@.subrange(from as int, to as int),
{
    let mut out = String::new();
    let mut i: usize = from;
    while i < to
        invariant
            from <= i <= to <= cs@.len(),
            out@ == cs@.subrange(from as int, i as int),
        decreases to - i,
    {
        out.push(cs[i]);
        proof {
            assert(cs@.subrange(from as int, i + 1) =~= cs@.subrange(from as int, i as int).push(
                cs@[i as int],
            ));
        }
        i = i + 1;
    }
    out
}

/// A string holding exactly the characters of `cs`.
pub fn string_of(cs: &[char]) -> (out: String)
    ensures
        out@ == cs@,
{
    let out = string_of_range(cs, 0, cs.len());
    proof {
        assert(cs@.subrange(0, cs@.len() as int) =~= cs@);
    }
    out
}

/// `a` followed by `b`.
pub fn concat(a: &str, b: &str) -> (out: String)
    ensures
        out@ == a@ + b@,
{
    let mut cs = chars_of(a);
    let bs = chars_of(b);
    let mut i: usize = 0;
    while i < bs.len()
        invariant
            i <= bs@.len(),
            bs@ == b@,
            cs@ == a@ + b@.take(i as int),
        decreases bs@.len() - i,
    {
        cs.push(bs[i]);
        proof {
            assert(b@.take(i + 1) =~= b@.take(i as int).push(b@[i as int]));
            assert(a@ + b@.take(i + 1) =~= (a@ + b@.take(i as int)).push(b@[i as int]));
        }
        i = i + 1;
    }
    proof {
        assert(b@.take(b@.len() as int) =~= b@);
    }
    string_of(&cs)
}

/// Whether `c` is Unicode white space, as `char::is_whitespace` decides.
pub fn is_whitespace(c: char) -> (b: bool)
    ensures
        b == is_white_space(c),
{
    let u = c as u32;
    (0x9 <= u && u <= 0xd) || u == 0x20 || u == 0x85 || u == 0xa0 || u == 0x1680 || (0x2000 <= u
        && u <= 0x200a) || u == 0x2028 || u == 0x2029 || u == 0x202f || u == 0x205f || u == 0x3000
}

/// Whether `c` belongs to the class `k`.
pub fn class_has(k: CharClass, c: char) -> (b: bool)
    ensures
        b == in_class(k, c),
{
    match k {
        CharClass::WhiteSpace => is_whitespace(c),
        CharClass::QuoteMark => c == '"' || c == '\'',
        CharClass::Backslash => c == '\\',
    }
}

/// Whether `a` and `b` hold the same characters.
pub fn same_text(a: &str, b: &str) -> (r: bool)
    ensures
        r == (a@ == b@),
{
    let x = chars_of(a);
    let y = chars_of(b);
    if x.len() != y.len() {
        return false;
    }
    let mut i: usize = 0;
    while i < x.len()
        invariant
            x@ == a@,
            y@ == b@,
            x@.len() == y@.len(),
            i <= x@.len(),
            forall|j: int| 0 <= j < i ==> x@[j] == y@[j],
        decreases x@.len() - i,
    {
        if x[i] != y[i] {
            return false;
        }
        i = i + 1;
    }
    proof {
        assert(a@ =~= b@);
    }
    true
}

/// Whether `n` occurs in `h` at position `i`.
fn occurs_at_exec(h: &Vec<char>, n: &Vec<char>, i: usize) -> (r: bool)
    ensures
        r == occurs_at(h@, n@, i as int),
{
    if n.len() > h.len() || i > h.len() - n.len() {
        return false;
    }
    let hl = h.len();
    let mut j: usize = 0;
    while j < n.len()
        invariant
            hl == h@.len(),
            i + n@.len() <= h@.len(),
            j <= n@.len(),
            forall|k: int| 0 <= k < j ==> h@[i + k] == n@[k],
        decreases n@.len() - j,
    {
        assert(i + j < hl);
        if h[i + j] != n[j] {
            proof {
                assert(h@.subrange(i as int, i + n@.len())[j as int] != n@[j as int]);
            }
            return false;
        }
        j = j + 1;
    }
    proof {
        assert(h@.subrange(i as int, i + n@.len()) =~= n@);
    }
    true
}

/// The first position at which `n` occurs in `h`, as `str::find` gives it
/// (counted in characters).
pub fn find_chars(h: &Vec<char>, n: &Vec<char>) -> (r: Option<usize>)
    ensures
        match r {
            Some(i) => occurs_at(h@, n@, i as int) && forall|j: int|
                0 <= j < i ==> !occurs_at(h@, n@, j),
            None => !contains_seq(h@, n@),
        },
        match r {
            Some(i) => find_seq(h@, n@) == Some(i as int),
            None => find_seq(h@, n@) is None,
        },
{
    if n.len() > h.len() {
        proof {
            assert forall|i: int| !occurs_at(h@, n@, i) by {}
        }
        return None;
    }
    let last = h.len() - n.len();
    let mut i: usize = 0;
    loop
        invariant
            last == h@.len() - n@.len(),
            i <= last,
            forall|j: int| 0 <= j < i ==> !occurs_at(h@, n@, j),
            find_seq(h@, n@) == find_from(h@, n@, i as int),
        decreases last - i,
    {
        if occurs_at_exec(h, n, i) {
            return Some(i);
        }
        if i == last {
            proof {
                assert(find_from(h@, n@, i + 1) is None);
                assert forall|j: int| !occurs_at(h@, n@, j) by {
                    if j > i {
                    }
                }
            }
            return None;
        }
        i = i + 1;
    }
}

/// Whether `n` occurs in `h`, as `str::contains` decides.
pub fn contains_text(h: &str, n: &str) -> (r: bool)
    ensures
        r == contains_seq(h@, n@),
{
    let hc = chars_of(h);
    let nc = chars_of(n);
    find_chars(&hc, &nc).is_some()
}

/// Whether `h` begins with `p`, as `str::starts_with` decides.
pub fn starts_with(h: &str, p: &str) -> (r: bool)
    ensures
        r == has_prefix(h@, p@),
{
    let hc = chars_of(h);
    let pc = chars_of(p);
    let r = occurs_at_exec(&hc, &pc, 0);
    r
}

/// Whether `h` ends with `p`, as `str::ends_with` decides.
pub fn ends_with(h: &str, p: &str) -> (r: bool)
    ensures
        r == has_suffix(h@, p@),
{
    let hc = chars_of(h);
    let pc = chars_of(p);
    if pc.len() > hc.len() {
        return false;
    }
    occurs_at_exec(&hc, &pc, hc.len() - pc.len())
}

/// `s` with every `from` replaced by `to`.
pub fn replace_chars(s: &str, from: char, to: char) -> (out: String)
    ensures
        out@ == replace_char(s@, from, to),
{
    let cs = chars_of(s);
    let mut res: Vec<char> = Vec::new();
    let mut i: usize = 0;
    while i < cs.len()
        invariant
            cs@ == s@,
            i <= cs@.len(),
            res@ == replace_char(s@.take(i as int), from, to),
        decreases cs@.len() - i,
    {
        let c = cs[i];
        if c == from {
            res.push(to);
        } else {
            res.push(c);
        }
        proof {
            assert(replace_char(s@.take(i + 1), from, to) =~= replace_char(
                s@.take(i as int),
                from,
                to,
            ).push(if c == from { to } else { c }));
        }
        i = i + 1;
    }
    proof {
        assert(s@.take(s@.len() as int) =~= s@);
    }
    string_of(&res)
}

/// The lowercase of a path with forward slashes turned into backslashes.
pub fn normalize_path(s: &str) -> (out: String)
    ensures
        out@ == replace_char(lowercase_of(s@), '/', '\\'),
{
    let lower = lowercase(s);
    replace_chars(lower.as_str(), '/', '\\')
}

/// The part of `s` after the last occurrence of `c`.
pub fn after_last_char(s: &str, c: char) -> (out: String)
    ensures
        out@ == after_last(s@, c),
{
    let cs = chars_of(s);
    let mut i: usize = cs.len();
    proof {
        assert(s@.take(s@.len() as int) =~= s@);
        assert(s@.subrange(s@.len() as int, s@.len() as int) =~= Seq::<char>::empty());
        assert(s@ + Seq::<char>::empty() =~= s@);
    }
    while i > 0
        invariant
            cs@ == s@,
            i <= cs@.len(),
            after_last(s@, c) == after_last(s@.take(i as int), c) + s@.subrange(
                i as int,
                s@.len() as int,
            ),
            forall|j: int| i <= j < s@.len() ==> s@[j] != c,
        decreases i,
    {
        if cs[i - 1] == c {
            proof {
                assert(s@.take(i as int).drop_last() =~= s@.take(i - 1));
                assert(s@.take(i as int).last() == c);
            }
            return string_of_range(&cs, i, cs.len());
        }
        proof {
            assert(s@.take(i as int).drop_last() =~= s@.take(i - 1));
            assert(s@.take(i as int).last() == s@[i - 1]);
            assert(after_last(s@.take(i - 1), c).push(s@[i - 1]) + s@.subrange(
                i as int,
                s@.len() as int,
            ) =~= after_last(s@.take(i - 1), c) + s@.subrange(i - 1, s@.len() as int));
        }
        i = i - 1;
    }
    proof {
        assert(s@.take(0) =~= Seq::<char>::empty());
        assert(Seq::<char>::empty() + s@.subrange(0, s@.len() as int) =~= s@);
    }
    string_of(&cs)
}

/// Position just past the leading characters of class `k` in `cs[..end]`.
fn skip_start(cs: &Vec<char>, end: usize, k: CharClass) -> (i: usize)
    requires
        end <= cs@.len(),
    ensures
        i <= end,
        trim_start_class(cs@.subrange(0, end as int), k) == cs@.subrange(i as int, end as int),
{
    let mut i: usize = 0;
    while i < end && class_has(k, cs[i])
        invariant
            i <= end <= cs@.len(),
            trim_start_class(cs@.subrange(0, end as int), k) == trim_start_class(
                cs@.subrange(i as int, end as int),
                k,
            ),
        decreases end - i,
    {
        proof {
            assert(cs@.subrange(i as int, end as int).drop_first() =~= cs@.subrange(
                i + 1,
                end as int,
            ));
        }
        i = i + 1;
    }
    i
}

/// Position of the end of `cs[from..end]` once its trailing characters of
/// class `k` are dropped.
fn skip_end(cs: &Vec<char>, from: usize, end: usize, k: CharClass) -> (j: usize)
    requires
        from <= end <= cs@.len(),
    ensures
        from <= j <= end,
        trim_end_class(cs@.subrange(from as int, end as int), k) == cs@.subrange(
            from as int,
            j as int,
        ),
{
    let mut j: usize = end;
    while j > from && class_has(k, cs[j - 1])
        invariant
            from <= j <= end <= cs@.len(),
            trim_end_class(cs@.subrange(from as int, end as int), k) == trim_end_class(
                cs@.subrange(from as int, j as int),
                k,
            ),
        decreases j,
    {
        proof {
            assert(cs@.subrange(from as int, j as int).drop_last() =~= cs@.subrange(
                from as int,
                j - 1,
            ));
        }
        j = j - 1;
    }
    j
}

/// `s` without its leading and trailing characters of class `k`, as
/// `str::trim` (white space) or `str::trim_matches` do.
pub fn trim_chars(s: &str, k: CharClass) -> (out: String)
    ensures
        out@ == trim_class(s@, k),
{
    let cs = chars_of(s);
    let i = skip_start(&cs, cs.len(), k);
    let j = skip_end(&cs, i, cs.len(), k);
    proof {
        assert(cs@.subrange(0, cs@.len() as int) =~= s@);
    }
    string_of_range(&cs, i, j)
}

/// `s` without its trailing characters of class `k`, as
/// `str::trim_end_matches` does.
pub fn trim_end_chars(s: &str, k: CharClass) -> (out: String)
    ensures
        out@ == trim_end_class(s@, k),
{
    let cs = chars_of(s);
    let j = skip_end(&cs, 0, cs.len(), k);
    proof {
        assert(cs@.subrange(0, cs@.len() as int) =~= s@);
    }
    string_of_range(&cs, 0, j)
}

/// The pieces of `s` between the occurrences of `c`, as `str::split` yields
/// them.
pub fn split_on(s: &str, c: char) -> (out: Vec<String>)
    ensures
        views(out@) == split_char(s@, c),
{
    let cs = chars_of(s);
    let mut pieces: Vec<String> = Vec::new();
    let mut start: usize = 0;
    let mut i: usize = 0;
    proof {
        assert(s@.take(0) =~= Seq::<char>::empty());
        assert(views(pieces@).push(s@.subrange(0, 0)) =~= seq![Seq::<char>::empty()]);
    }
    while i < cs.len()
        invariant
            cs@ == s@,
            start <= i <= cs@.len(),
            split_char(s@.take(i as int), c) == views(pieces@).push(
                s@.subrange(start as int, i as int),
            ),
        decreases cs@.len() - i,
    {
        let ghost before = views(pieces@);
        proof {
            assert(s@.take(i + 1).drop_last() =~= s@.take(i as int));
            assert(s@.take(i + 1).last() == s@[i as int]);
        }
        if cs[i] == c {
            let ghost old_start = start;
            let piece = string_of_range(&cs, start, i);
            pieces.push(piece);
            start = i + 1;
            proof {
                assert(views(pieces@) =~= before.push(s@.subrange(old_start as int, i as int)));
                assert(s@.subrange(start as int, i + 1) =~= Seq::<char>::empty());
            }
        } else {
            proof {
                assert(s@.subrange(start as int, i + 1) =~= s@.subrange(
                    start as int,
                    i as int,
                ).push(s@[i as int]));
                assert(before.push(s@.subrange(start as int, i as int)).update(
                    before.len() as int,
                    s@.subrange(start as int, i as int).push(s@[i as int]),
                ) =~= before.push(s@.subrange(start as int, i + 1)));
            }
        }
        i = i + 1;
    }
    let last = string_of_range(&cs, start, cs.len());
    pieces.push(last);
    proof {
        assert(s@.take(s@.len() as int) =~= s@);
        assert(views(pieces@) =~= split_char(s@, c));
    }
    pieces
}

/// The lines of `s`, as `str::lines` yields them.
pub fn lines(s: &str) -> (out: Vec<String>)
    ensures
        views(out@) == lines_of(s@),
{
    let parts = split_on(s, '\n');
    proof {
        lemma_split_char_nonempty(s@, '\n');
    }
    let n = parts.len();
    let count = if parts[n - 1].as_str().is_empty() {
        n - 1
    } else {
        n
    };
    let mut out: Vec<String> = Vec::new();
    let mut i: usize = 0;
    while i < count
        invariant
            views(parts@) == split_char(s@, '\n'),
            n == parts@.len(),
            n >= 1,
            count <= n,
            count == (if parts@[n - 1]@.len() == 0 { n - 1 } else { n as int }),
            i <= count,
            views(out@) == lines_of(s@).take(i as int),
        decreases count - i,
    {
        let p = parts[i].as_str();
        let pc = chars_of(p);
        let line = if i < n - 1 && pc.len() > 0 && pc[pc.len() - 1] == '\r' {
            string_of_range(&pc, 0, pc.len() - 1)
        } else {
            string_of_range(&pc, 0, pc.len())
        };
        proof {
            assert(views(parts@)[i as int] == parts@[i as int]@);
            assert(pc@.subrange(0, pc@.len() as int) =~= pc@);
            if i < n - 1 && pc@.len() > 0 && pc@[pc@.len() - 1] == '\r' {
                assert(pc@.subrange(0, pc@.len() - 1) =~= pc@.drop_last());
            }
            assert(lines_of(s@)[i as int] == line@);
        }
        let ghost prev = views(out@);
        out.push(line);
        proof {
            assert(views(out@) =~= prev.push(line@));
            assert(lines_of(s@).len() == count);
            assert(views(out@) =~= lines_of(s@).take(i + 1));
        }
        i = i + 1;
    }
    proof {
        assert(lines_of(s@).len() == count);
        assert(lines_of(s@).take(count as int) =~= lines_of(s@));
    }
    out
}

/// Whether `a` and `b` are equal up to ASCII case, as
/// `str::eq_ignore_ascii_case` decides.
pub fn eq_ignore_ascii_case(a: &str, b: &str) -> (r: bool)
    ensures
        r == eq_ascii_ci(a@, b@),
{
    let x = chars_of(a);
    let y = chars_of(b);
    if x.len() != y.len() {
        return false;
    }
    let mut i: usize = 0;
    while i < x.len()
        invariant
            x@ == a@,
            y@ == b@,
            x@.len() == y@.len(),
            i <= x@.len(),
            forall|j: int| 0 <= j < i ==> ascii_lower(x@[j]) == ascii_lower(y@[j]),
        decreases x@.len() - i,
    {
        let u = x[i] as u32;
        let v = y[i] as u32;
        let lu = if 0x41 <= u && u <= 0x5a {
            u + 0x20
        } else {
            u
        };
        let lv = if 0x41 <= v && v <= 0x5a {
            v + 0x20
        } else {
            v
        };
        if lu != lv {
            return false;
        }
        i = i + 1;
    }
    true
}

/// Whether `a` sorts strictly before `b` in the order of `str`.
pub fn text_less(a: &str, b: &str) -> (r: bool)
    ensures
        r == lex_less(a@, b@),
{
    let x = chars_of(a);
    let y = chars_of(b);
    let mut i: usize = 0;
    proof {
        assert(a@.skip(0) =~= a@);
        assert(b@.skip(0) =~= b@);
    }
    while i < x.len() && i < y.len() && x[i] == y[i]
        invariant
            x@ == a@,
            y@ == b@,
            i <= x@.len(),
            i <= y@.len(),
            lex_less(a@, b@) == lex_less(a@.skip(i as int), b@.skip(i as int)),
        decreases x@.len() - i,
    {
        proof {
            assert(a@.skip(i as int).drop_first() =~= a@.skip(i + 1));
            assert(b@.skip(i as int).drop_first() =~= b@.skip(i + 1));
        }
        i = i + 1;
    }
    proof {
        if i < x@.len() && i < y@.len() {
            assert(a@.skip(i as int)[0] == x@[i as int]);
            assert(b@.skip(i as int)[0] == y@[i as int]);
        }
    }
    if i == x.len() {
        i < y.len()
    } else if i == y.len() {
        false
    } else {
        x[i] < y[i]
    }
}

/// The part of `s` after the first occurrence of `c`, as the second piece
/// of `str::splitn(2, c)`.
pub fn after_first_char(s: &str, c: char) -> (r: Option<String>)
    ensures
        opt_view(r) == after_first(s@, c),
{
    let cs = chars_of(s);
    let mut i: usize = 0;
    proof {
        assert(s@.skip(0) =~= s@);
    }
    while i < cs.len()
        invariant
            cs@ == s@,
            i <= cs@.len(),
            after_first(s@, c) == after_first(s@.skip(i as int), c),
        decreases cs@.len() - i,
    {
        proof {
            assert(s@.skip(i as int)[0] == s@[i as int]);
            assert(s@.skip(i as int).drop_first() =~= s@.skip(i + 1));
        }
        if cs[i] == c {
            proof {
                assert(s@.skip(i + 1) =~= s@.subrange(i + 1, s@.len() as int));
            }
            return Some(string_of_range(&cs, i + 1, cs.len()));
        }
        i = i + 1;
    }
    proof {
        assert(s@.skip(i as int).len() == 0);
    }
    None
}

/// The first piece of `s` when split at `c`, as `str::split(c).next()`
/// gives it.
pub fn first_piece(s: &str, c: char) -> (r: String)
    ensures
        r@ == split_char(s@, c)[0],
{
    let parts = split_on(s, c);
    proof {
        lemma_split_char_nonempty(s@, c);
        assert(views(parts@)[0] == parts@[0]@);
    }
    parts[0].clone()
}

/// An owned copy of `s`.
pub fn owned(s: &str) -> (r: String)
    ensures
        r@ == s@,
{
    s.to_owned()
}

} // verus!
