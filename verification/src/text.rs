//! Character-level text utilities shared by the writing protocol, the
//! diff summaries and the entry matcher. Texts are handled as sequences of
//! Unicode scalar values, the view that `String` and `str` have in specs.
use vstd::prelude::*;

verus! {

/// Unicode `White_Space`: the characters that `str::trim` and
/// `str::split_whitespace` treat as blank.
pub open spec fn is_white_space(c: char) -> bool {
    let u = c as u32;
    ||| 0x9 <= u <= 0xd
    ||| u == 0x20
    ||| u == 0x85
    ||| u == 0xa0
    ||| u == 0x1680
    ||| 0x2000 <= u <= 0x200a
    ||| u == 0x2028
    ||| u == 0x2029
    ||| u == 0x202f
    ||| u == 0x205f
    ||| u == 0x3000
}

/// Whether `c` has the Unicode `White_Space` property.
pub fn white_space(c: char) -> (r: bool)
    ensures
        r == is_white_space(c),
{
    let u = c as u32;
    (0x9 <= u && u <= 0xd) || u == 0x20 || u == 0x85 || u == 0xa0 || u == 0x1680 || (0x2000 <= u
        && u <= 0x200a) || u == 0x2028 || u == 0x2029 || u == 0x202f || u == 0x205f || u == 0x3000
}

/// Appends one character to a string.
#[verifier::external_body]
pub(crate) fn push_char(s: &mut String, c: char)
    ensures
        final(s)@ == old(s)@.push(c),
{
    s.push(c);
}

/// The characters of `s`, in order.
pub fn chars_of(s: &str) -> (v: Vec<char>)
    ensures
        v@ == s@,
{
    let mut v: Vec<char> = Vec::new();
    for c in it: s.chars()
        invariant
            v@ == it.seq().take(it.index() as int),
            it.seq() == s@,
    {
        v.push(c);
    }
    v
}


/// The string whose characters are `v`.
pub fn string_of(v: &[char]) -> (s: String)
    ensures
        s@ == v@,
{
    let mut s = String::new();
    let mut i: usize = 0;
    while i < v.len()
        invariant
            i <= v.len(),
            s@ == v@.take(i as int),
        decreases v.len() - i,
    {
        push_char(&mut s, v[i]);
        proof {
            assert(v@.take(i as int).push(v@[i as int]) =~= v@.take(i + 1));
        }
        i += 1;
    }
    proof {
        assert(v@.take(v.len() as int) =~= v@);
    }
    s
}

/// `s` without the leading characters that satisfy `p`.
pub open spec fn trim_start_by(s: Seq<char>, p: spec_fn(char) -> bool) -> Seq<char>
    decreases s.len(),
{
    if s.len() > 0 && p(s[0]) {
        trim_start_by(s.drop_first(), p)
    } else {
        s
    }
}

/// `s` without the trailing characters that satisfy `p`.
pub open spec fn trim_end_by(s: Seq<char>, p: spec_fn(char) -> bool) -> Seq<char>
    decreases s.len(),
{
    if s.len() > 0 && p(s.last()) {
        trim_end_by(s.drop_last(), p)
    } else {
        s
    }
}

/// `str::trim`: `s` without leading and trailing white space.
pub open spec fn trim(s: Seq<char>) -> Seq<char> {
    trim_end_by(trim_start_by(s, |c: char| is_white_space(c)), |c: char| is_white_space(c))
}

/// Trimming from the start by `p` skips the first `i` characters when
/// they all satisfy `p` and the next one does not.
pub(crate) proof fn lemma_trim_start_by(s: Seq<char>, p: spec_fn(char) -> bool, i: int)
    requires
        0 <= i <= s.len(),
        forall|j: int| 0 <= j < i ==> p(#[trigger] s[j]),
        i == s.len() || !p(s[i]),
    ensures
        trim_start_by(s, p) == s.skip(i),
    decreases i,
{
    if i > 0 {
        lemma_trim_start_by(s.drop_first(), p, i - 1);
        assert(s.drop_first().skip(i - 1) =~= s.skip(i));
    } else {
        assert(s.skip(0) =~= s);
    }
}

/// Trimming from the end by `p` keeps the first `e` characters when the
/// rest all satisfy `p` and the one before does not.
pub(crate) proof fn lemma_trim_end_by(s: Seq<char>, p: spec_fn(char) -> bool, e: int)
    requires
        0 <= e <= s.len(),
        forall|j: int| e <= j < s.len() ==> p(#[trigger] s[j]),
        e == 0 || !p(s[e - 1]),
    ensures
        trim_end_by(s, p) == s.take(e),
    decreases s.len() - e,
{
    if e < s.len() {
        lemma_trim_end_by(s.drop_last(), p, e);
        assert(s.drop_last().take(e) =~= s.take(e));
    } else {
        assert(s.take(e) =~= s);
    }
}

/// Which characters a trimming step removes.
pub enum TrimSet {
    /// Unicode white space.
    WhiteSpace,
    /// `[`, `【`, space and tab: what opens a slot label.
    LabelOpen,
    /// `]`, `】`, space and tab: what closes a slot label.
    LabelClose,
}

pub open spec fn in_trim_set(set: TrimSet, c: char) -> bool {
    match set {
        TrimSet::WhiteSpace => is_white_space(c),
        TrimSet::LabelOpen => c == '[' || c == '【' || c == ' ' || c == '\t',
        TrimSet::LabelClose => c == ']' || c == '】' || c == ' ' || c == '\t',
    }
}

fn trim_set_has(set: &TrimSet, c: char) -> (r: bool)
    ensures
        r == in_trim_set(*set, c),
{
    match set {
        TrimSet::WhiteSpace => white_space(c),
        TrimSet::LabelOpen => c == '[' || c == '【' || c == ' ' || c == '\t',
        TrimSet::LabelClose => c == ']' || c == '】' || c == ' ' || c == '\t',
    }
}

/// Bounds `(start, end)` of `v[from..to]` once the characters of `set` are
/// trimmed from its start (if `front`) and its end (if `back`).
pub fn trim_bounds(v: &[char], from: usize, to: usize, set: TrimSet, front: bool, back: bool) -> (r: (
    usize,
    usize,
))
    requires
        from <= to <= v.len(),
    ensures
        from <= r.0 <= r.1 <= to,
        !front ==> r.0 == from,
        !back ==> r.1 == to,
        v@.subrange(r.0 as int, r.1 as int) == ({
            let s = v@.subrange(from as int, to as int);
            let p = |c: char| in_trim_set(set, c);
            let a = if front { trim_start_by(s, p) } else { s };
            if back { trim_end_by(a, p) } else { a }
        }),
{
    let ghost s = v@.subrange(from as int, to as int);
    let ghost p = |c: char| in_trim_set(set, c);
    let mut start = from;
    if front {
        while start < to && trim_set_has(&set, v[start])
            invariant
                from <= start <= to <= v.len(),
                forall|j: int| from <= j < start ==> in_trim_set(set, #[trigger] v@[j]),
            decreases to - start,
        {
            start += 1;
        }
        proof {
            assert forall|j: int| 0 <= j < start - from implies p(#[trigger] s[j]) by {
                assert(s[j] == v@[from + j]);
            }
            lemma_trim_start_by(s, p, start - from);
            assert(s.skip(start - from) =~= v@.subrange(start as int, to as int));
        }
    } else {
        assert(v@.subrange(start as int, to as int) =~= s);
    }
    let ghost a = v@.subrange(start as int, to as int);
    let mut end = to;
    if back {
        while end > start && trim_set_has(&set, v[end - 1])
            invariant
                from <= start <= end <= to <= v.len(),
                forall|j: int| end <= j < to ==> in_trim_set(set, #[trigger] v@[j]),
            decreases end - start,
        {
            end -= 1;
        }
        proof {
            assert forall|j: int| end - start <= j < a.len() implies p(#[trigger] a[j]) by {
                assert(a[j] == v@[start + j]);
            }
            lemma_trim_end_by(a, p, end - start);
            assert(a.take(end - start) =~= v@.subrange(start as int, end as int));
        }
    }
    (start, end)
}

/// Whether `t` occurs in `s` starting at index `i`.
pub open spec fn matches_at(s: Seq<char>, t: Seq<char>, i: int) -> bool {
    0 <= i && i + t.len() <= s.len() && s.subrange(i, i + t.len()) == t
}

/// `str::contains`: whether `t` occurs somewhere in `s`.
pub open spec fn contains_seq(s: Seq<char>, t: Seq<char>) -> bool {
    exists|i: int| matches_at(s, t, i)
}

/// The index of the first occurrence of `t` in `s`, or -1.
pub open spec fn first_match(s: Seq<char>, t: Seq<char>) -> int {
    if contains_seq(s, t) {
        choose|i: int| matches_at(s, t, i) && forall|j: int| 0 <= j < i ==> !matches_at(s, t, j)
    } else {
        -1
    }
}

proof fn lemma_first_match(s: Seq<char>, t: Seq<char>, i: int)
    requires
        matches_at(s, t, i),
        forall|j: int| 0 <= j < i ==> !matches_at(s, t, j),
    ensures
        first_match(s, t) == i,
{
    assert(contains_seq(s, t));
    let k = first_match(s, t);
    assert(matches_at(s, t, k) && forall|j: int| 0 <= j < k ==> !matches_at(s, t, j));
    if k < i {
        assert(!matches_at(s, t, k));
    }
    if i < k {
        assert(!matches_at(s, t, i));
    }
}

/// Whether `t` occurs in `v` at index `i`.
fn matches_here(v: &[char], t: &[char], i: usize) -> (r: bool)
    requires
        i + t.len() <= v.len(),
    ensures
        r == matches_at(v@, t@, i as int),
{
    let mut k: usize = 0;
    while k < t.len()
        invariant
            k <= t.len(),
            i + t.len() <= v.len(),
            forall|j: int| 0 <= j < k ==> v@[i + j] == t@[j],
        decreases t.len() - k,
    {
        if v[i + k] != t[k] {
            proof {
                assert(v@.subrange(i as int, i + t.len())[k as int] != t@[k as int]);
            }
            return false;
        }
        k += 1;
    }
    assert(v@.subrange(i as int, i + t.len()) =~= t@);
    true
}

/// `str::find` counted in characters: the first index at which `t` occurs in `v`.
pub fn find_chars(v: &[char], t: &[char]) -> (r: Option<usize>)
    ensures
        r is Some <==> contains_seq(v@, t@),
        r matches Some(i) ==> i as int == first_match(v@, t@) && matches_at(v@, t@, i as int),
{
    if t.len() > v.len() {
        assert(!contains_seq(v@, t@));
        return None;
    }
    let last = v.len() - t.len();
    let mut i: usize = 0;
    while i <= last
        invariant
            last == v.len() - t.len(),
            i <= last + 1,
            forall|j: int| 0 <= j < i ==> !matches_at(v@, t@, j),
        decreases last + 1 - i,
    {
        if matches_here(v, t, i) {
            proof {
                lemma_first_match(v@, t@, i as int);
            }
            return Some(i);
        }
        if i == last {
            assert(!contains_seq(v@, t@));
            return None;
        }
        i += 1;
    }
    None
}

/// `str::contains` on character vectors.
pub fn contains_chars(v: &[char], t: &[char]) -> (r: bool)
    ensures
        r == contains_seq(v@, t@),
{
    find_chars(v, t).is_some()
}


/// `s` with its characters from `set` trimmed at both ends; for
/// `TrimSet::WhiteSpace` this is `str::trim`.
pub fn trimmed(v: &[char]) -> (r: Vec<char>)
    ensures
        r@ == trim(v@),
{
    let (a, b) = trim_bounds(v, 0, v.len(), TrimSet::WhiteSpace, true, true);
    assert(v@.subrange(0, v.len() as int) =~= v@);
    assert((|c: char| in_trim_set(TrimSet::WhiteSpace, c)) =~= (|c: char| is_white_space(c)));
    slice_to_vec(v, a, b)
}

/// A copy of `v[a..b]`.
pub fn slice_to_vec(v: &[char], a: usize, b: usize) -> (r: Vec<char>)
    requires
        a <= b <= v.len(),
    ensures
        r@ == v@.subrange(a as int, b as int),
{
    let mut r: Vec<char> = Vec::new();
    let mut i = a;
    while i < b
        invariant
            a <= i <= b <= v.len(),
            r@ == v@.subrange(a as int, i as int),
        decreases b - i,
    {
        r.push(v[i]);
        proof {
            assert(v@.subrange(a as int, i as int).push(v@[i as int]) =~= v@.subrange(
                a as int,
                i + 1,
            ));
        }
        i += 1;
    }
    r
}

/// The lines already closed by a newline in `s`, and the text after the last
/// newline. A closed line loses its `\n` and then one trailing `\r`.
pub open spec fn line_scan(s: Seq<char>) -> (Seq<Seq<char>>, Seq<char>)
    decreases s.len(),
{
    if s.len() == 0 {
        (seq![], seq![])
    } else {
        let (done, cur) = line_scan(s.drop_last());
        if s.last() == '\n' {
            (done.push(strip_cr(cur)), seq![])
        } else {
            (done, cur.push(s.last()))
        }
    }
}

/// `l` without one trailing carriage return.
pub open spec fn strip_cr(l: Seq<char>) -> Seq<char> {
    if l.len() > 0 && l.last() == '\r' {
        l.drop_last()
    } else {
        l
    }
}

/// `str::lines`: the lines of `s`; a final line ending adds no empty line.
pub open spec fn lines(s: Seq<char>) -> Seq<Seq<char>> {
    let (done, cur) = line_scan(s);
    if cur.len() > 0 {
        done.push(cur)
    } else {
        done
    }
}

/// The lines of `v`, as `str::lines` splits them.
pub fn split_lines(v: &[char]) -> (r: Vec<Vec<char>>)
    ensures
        r@.len() == lines(v@).len(),
        forall|i: int| 0 <= i < r@.len() ==> #[trigger] r@[i]@ == lines(v@)[i],
{
    let mut done: Vec<Vec<char>> = Vec::new();
    let mut cur: Vec<char> = Vec::new();
    let mut i: usize = 0;
    while i < v.len()
        invariant
            i <= v.len(),
            done@.len() == line_scan(v@.take(i as int)).0.len(),
            forall|k: int|
                0 <= k < done@.len() ==> #[trigger] done@[k]@ == line_scan(v@.take(i as int)).0[k],
            cur@ == line_scan(v@.take(i as int)).1,
        decreases v.len() - i,
    {
        let c = v[i];
        proof {
            assert(v@.take(i + 1).drop_last() =~= v@.take(i as int));
        }
        if c == '\n' {
            let n = cur.len();
            if n > 0 && cur[n - 1] == '\r' {
                cur.pop();
            }
            done.push(cur);
            cur = Vec::new();
        } else {
            cur.push(c);
        }
        i += 1;
    }
    assert(v@.take(v.len() as int) =~= v@);
    if cur.len() > 0 {
        done.push(cur);
    }
    done
}

/// Whether `p` is a prefix of `s`.
pub open spec fn starts_with(s: Seq<char>, p: Seq<char>) -> bool {
    p.len() <= s.len() && s.take(p.len() as int) == p
}

/// `str::starts_with` on character vectors.
pub fn starts_with_chars(v: &[char], p: &[char]) -> (r: bool)
    ensures
        r == starts_with(v@, p@),
{
    if p.len() > v.len() {
        return false;
    }
    let r = matches_here(v, p, 0);
    assert(v@.subrange(0, p.len() as int) =~= v@.take(p.len() as int));
    r
}

/// Whether two character vectors are equal.
pub fn same_chars(a: &[char], b: &[char]) -> (r: bool)
    ensures
        r == (a@ == b@),
{
    if a.len() != b.len() {
        return false;
    }
    let r = matches_here(a, b, 0);
    assert(a@.subrange(0, b.len() as int) =~= a@);
    r
}

/// Whether the characters of `v` spell `s`.
pub fn chars_eq_str(v: &[char], s: &str) -> (r: bool)
    ensures
        r == (v@ == s@),
{
    let w = chars_of(s);
    same_chars(v, w.as_slice())
}

/// `c` lowered if it is an ASCII capital letter.
pub open spec fn ascii_lower(c: char) -> char {
    if 'A' <= c <= 'Z' {
        ((c as u32) + 32) as char
    } else {
        c
    }
}

/// `str::to_ascii_lowercase`.
pub open spec fn ascii_lowercase(s: Seq<char>) -> Seq<char> {
    s.map_values(|c: char| ascii_lower(c))
}

/// `s` with every `from` replaced by `to`.
pub open spec fn replace_char(s: Seq<char>, from: char, to: char) -> Seq<char> {
    s.map_values(|c: char| if c == from { to } else { c })
}

/// The ASCII-lowered copy of `v`.
pub fn to_ascii_lowercase(v: &[char]) -> (r: Vec<char>)
    ensures
        r@ == ascii_lowercase(v@),
{
    let mut r: Vec<char> = Vec::new();
    let mut i: usize = 0;
    while i < v.len()
        invariant
            i <= v.len(),
            r@ == ascii_lowercase(v@.take(i as int)),
        decreases v.len() - i,
    {
        let c = v[i];
        let l = if 'A' <= c && c <= 'Z' {
            let u = (c as u8) + 32;
            u as char
        } else {
            c
        };
        r.push(l);
        proof {
            assert(ascii_lowercase(v@.take(i + 1)) =~= ascii_lowercase(v@.take(i as int)).push(
                ascii_lower(c),
            ));
        }
        i += 1;
    }
    assert(v@.take(v.len() as int) =~= v@);
    r
}

/// `v` with every `from` replaced by `to`.
pub fn replace_chars(v: &[char], from: char, to: char) -> (r: Vec<char>)
    ensures
        r@ == replace_char(v@, from, to),
{
    let mut r: Vec<char> = Vec::new();
    let mut i: usize = 0;
    while i < v.len()
        invariant
            i <= v.len(),
            r@ == replace_char(v@.take(i as int), from, to),
        decreases v.len() - i,
    {
        let c = v[i];
        r.push(if c == from { to } else { c });
        proof {
            assert(replace_char(v@.take(i + 1), from, to) =~= replace_char(
                v@.take(i as int),
                from,
                to,
            ).push(if c == from { to } else { c }));
        }
        i += 1;
    }
    assert(v@.take(v.len() as int) =~= v@);
    r
}

/// The pieces of `parts` joined by `sep`.
pub open spec fn join(parts: Seq<Seq<char>>, sep: Seq<char>) -> Seq<char>
    decreases parts.len(),
{
    if parts.len() == 0 {
        seq![]
    } else if parts.len() == 1 {
        parts[0]
    } else {
        join(parts.drop_last(), sep) + sep + parts.last()
    }
}

/// `[String]::join` on character vectors.
pub fn join_chars(parts: &Vec<Vec<char>>, sep: &[char]) -> (r: Vec<char>)
    ensures
        r@ == join(parts@.map_values(|p: Vec<char>| p@), sep@),
{
    let ghost views = parts@.map_values(|p: Vec<char>| p@);
    let mut r: Vec<char> = Vec::new();
    let mut i: usize = 0;
    while i < parts.len()
        invariant
            i <= parts.len(),
            views == parts@.map_values(|p: Vec<char>| p@),
            r@ == join(views.take(i as int), sep@),
        decreases parts.len() - i,
    {
        if i > 0 {
            append_chars(&mut r, sep);
        }
        append_chars(&mut r, parts[i].as_slice());
        proof {
            assert(views.take(i + 1).drop_last() =~= views.take(i as int));
            if i == 0 {
                assert(r@ =~= views.take(1)[0]);
            }
        }
        i += 1;
    }
    assert(views.take(parts.len() as int) =~= views);
    r
}

/// Appends the characters of `s` to `v`.
pub fn append_chars(v: &mut Vec<char>, s: &[char])
    ensures
        final(v)@ == old(v)@ + s@,
{
    let mut i: usize = 0;
    while i < s.len()
        invariant
            i <= s.len(),
            v@ == old(v)@ + s@.take(i as int),
        decreases s.len() - i,
    {
        v.push(s[i]);
        proof {
            assert(s@.take(i as int).push(s@[i as int]) =~= s@.take(i + 1));
        }
        i += 1;
    }
    assert(s@.take(s.len() as int) =~= s@);
}

/// Appends the characters of `s` to `v`.
pub fn append_str(v: &mut Vec<char>, s: &str)
    ensures
        final(v)@ == old(v)@ + s@,
{
    let w = chars_of(s);
    append_chars(v, w.as_slice());
}


/// Whether two strings are equal.
pub fn str_eq(a: &str, b: &str) -> (r: bool)
    ensures
        r == (a@ == b@),
{
    let v = chars_of(a);
    chars_eq_str(v.as_slice(), b)
}

/// A copy of a string.
pub fn copy_string(s: &String) -> (r: String)
    ensures
        r@ == s@,
{
    s.clone()
}


/// The decimal digit for `d < 10`.
pub open spec fn digit_char(d: nat) -> char {
    ((d + 48) as u32) as char
}

/// The decimal text of `n`, as `Display` prints an unsigned integer.
pub open spec fn decimal(n: nat) -> Seq<char>
    decreases n,
{
    if n < 10 {
        seq![digit_char(n)]
    } else {
        decimal(n / 10).push(digit_char(n % 10))
    }
}

/// The decimal text of `n`.
pub fn decimal_chars(n: u64) -> (r: Vec<char>)
    ensures
        r@ == decimal(n as nat),
    decreases n,
{
    let d = (n % 10) as u8;
    let c = (d + 48) as char;
    if n < 10 {
        let mut v: Vec<char> = Vec::new();
        v.push(c);
        assert(v@ =~= seq![digit_char(n as nat)]);
        v
    } else {
        let mut v = decimal_chars(n / 10);
        v.push(c);
        v
    }
}

/// The words of `s`: maximal runs of characters that are not white space,
/// as `str::split_whitespace` yields them, in order.
pub open spec fn word_scan(s: Seq<char>) -> (Seq<Seq<char>>, Seq<char>)
    decreases s.len(),
{
    if s.len() == 0 {
        (seq![], seq![])
    } else {
        let (done, cur) = word_scan(s.drop_last());
        if is_white_space(s.last()) {
            if cur.len() > 0 {
                (done.push(cur), seq![])
            } else {
                (done, cur)
            }
        } else {
            (done, cur.push(s.last()))
        }
    }
}

/// `str::split_whitespace`.
pub open spec fn words(s: Seq<char>) -> Seq<Seq<char>> {
    let (done, cur) = word_scan(s);
    if cur.len() > 0 {
        done.push(cur)
    } else {
        done
    }
}

/// The words of `v`.
pub fn split_words(v: &[char]) -> (r: Vec<Vec<char>>)
    ensures
        r@.map_values(|w: Vec<char>| w@) == words(v@),
{
    let mut done: Vec<Vec<char>> = Vec::new();
    let mut cur: Vec<char> = Vec::new();
    let mut i: usize = 0;
    while i < v.len()
        invariant
            i <= v.len(),
            done@.map_values(|w: Vec<char>| w@) == word_scan(v@.take(i as int)).0,
            cur@ == word_scan(v@.take(i as int)).1,
        decreases v.len() - i,
    {
        let c = v[i];
        proof {
            assert(v@.take(i + 1).drop_last() =~= v@.take(i as int));
        }
        if white_space(c) {
            if cur.len() > 0 {
                let ghost before = done@;
                done.push(cur);
                proof {
                    assert(done@.map_values(|w: Vec<char>| w@) =~= before.map_values(
                        |w: Vec<char>| w@,
                    ).push(word_scan(v@.take(i as int)).1));
                }
                cur = Vec::new();
            }
        } else {
            cur.push(c);
        }
        i += 1;
    }
    assert(v@.take(v.len() as int) =~= v@);
    if cur.len() > 0 {
        let ghost before = done@;
        let ghost last = cur@;
        done.push(cur);
        proof {
            assert(done@.map_values(|w: Vec<char>| w@) =~= before.map_values(|w: Vec<char>| w@).push(
                last,
            ));
        }
    }
    done
}

} // verus!
