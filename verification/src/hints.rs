//! Matching the author's designed story entries (characters, settings,
//! foreshadowing) against the paragraph being written: the words that do not
//! count, how texts are normalized and cut into candidate terms, and the
//! signals an entry gives off (its name, aliases, the core of a long title,
//! the keywords of its description, the previous paragraph, and a lexical
//! retrieval over its text). No model is involved.
use vstd::prelude::*;
use crate::domain::{HintAction, HintKind};
use crate::text::{
    append_chars, chars_of, contains_chars, contains_seq, find_chars, first_match, is_white_space,
    same_chars, slice_to_vec, string_of, trim, trimmed,
};

verus! {

// ---------------------------------------------------------------------------
// Stop words and splitters
// ---------------------------------------------------------------------------

/// Words too common in narration to identify an entry.
pub open spec fn stop_words() -> Seq<Seq<char>> {
    seq![
        "然后"@, "于是"@, "只是"@, "可是"@, "但是"@, "这时"@, "此时"@, "忽然"@, "突然"@, "终于"@,
        "其实"@, "因为"@, "所以"@, "如果"@, "虽然"@, "他们"@, "她们"@, "我们"@, "自己"@, "这个"@,
        "那个"@, "什么"@, "没有"@, "不是"@, "已经"@, "还是"@, "或者"@, "以及"@, "里面"@, "还有"@,
        "一个"@, "没有"@, "现在"@, "后来"@, "开始"@, "继续"@, "出现"@, "时候"@, "地方"@, "东西"@,
        "补充"@, "说明"@, "预先"@, "设定"@, "人物"@, "伏笔"@, "条目"@, "终年"@, "夜晚"@, "海面"@,
        "进来"@, "出去"@, "看见"@, "听到"@, "知道"@, "觉得"@, "走过"@, "走进"@, "来到"@, "抵达"@,
        "到了"@, "快到"@, "快到了"@,
    ]
}

/// Whether a term is a stop word.
pub open spec fn is_stop_word(t: Seq<char>) -> bool {
    stop_words().contains(t)
}

fn stop_list() -> (r: Vec<&'static str>)
    ensures
        r@.len() == stop_words().len(),
        forall|i: int| 0 <= i < r@.len() ==> #[trigger] r@[i]@ == stop_words()[i],
{
    let r: Vec<&'static str> = vec![
        "然后", "于是", "只是", "可是", "但是", "这时", "此时", "忽然", "突然", "终于",
        "其实", "因为", "所以", "如果", "虽然", "他们", "她们", "我们", "自己", "这个",
        "那个", "什么", "没有", "不是", "已经", "还是", "或者", "以及", "里面", "还有",
        "一个", "没有", "现在", "后来", "开始", "继续", "出现", "时候", "地方", "东西",
        "补充", "说明", "预先", "设定", "人物", "伏笔", "条目", "终年", "夜晚", "海面",
        "进来", "出去", "看见", "听到", "知道", "觉得", "走过", "走进", "来到", "抵达",
        "到了", "快到", "快到了",
    ];
    assert(r@.map_values(|s: &'static str| s@) =~= stop_words());
    assert forall|i: int| 0 <= i < r@.len() implies #[trigger] r@[i]@ == stop_words()[i] by {
        assert(r@.map_values(|s: &'static str| s@)[i] == r@[i]@);
    }
    r
}

/// Whether a term is a stop word.
pub fn is_stop(token: &[char]) -> (r: bool)
    ensures
        r == is_stop_word(token@),
{
    let list = stop_list();
    let mut i: usize = 0;
    while i < list.len()
        invariant
            i <= list.len(),
            list@.len() == stop_words().len(),
            forall|k: int| 0 <= k < list@.len() ==> #[trigger] list@[k]@ == stop_words()[k],
            forall|k: int| 0 <= k < i ==> stop_words()[k] != token@,
        decreases list.len() - i,
    {
        if crate::text::chars_eq_str(token, list[i]) {
            assert(stop_words()[i as int] == token@);
            return true;
        }
        i += 1;
    }
    false
}

/// The characters that cut a text into chunks: punctuation, blanks,
/// quotation marks, brackets, and the particles 的, 地, 得.
pub open spec fn is_splitter(c: char) -> bool {
    c == '，' || c == '。' || c == '；' || c == '、' || c == ',' || c == '.' || c == '!' || c == '?'
        || c == '！' || c == '？' || c == '：' || c == ':' || c == '\n' || c == '\t' || c == ' '
        || c == '「' || c == '」' || c == '“' || c == '”' || c == '\'' || c == '（' || c == '）'
        || c == '(' || c == ')' || c == '《' || c == '》' || c == '—' || c == '…' || c == '·'
        || c == '的' || c == '地' || c == '得'
}

/// Whether `c` cuts a text into chunks.
pub fn splitter(c: char) -> (r: bool)
    ensures
        r == is_splitter(c),
{
    c == '，' || c == '。' || c == '；' || c == '、' || c == ',' || c == '.' || c == '!' || c == '?'
        || c == '！' || c == '？' || c == '：' || c == ':' || c == '\n' || c == '\t' || c == ' '
        || c == '「' || c == '」' || c == '“' || c == '”' || c == '\'' || c == '（' || c == '）'
        || c == '(' || c == ')' || c == '《' || c == '》' || c == '—' || c == '…' || c == '·'
        || c == '的' || c == '地' || c == '得'
}

/// The chunks already closed by a splitter in `s`, and the open chunk after
/// the last splitter.
pub open spec fn chunk_scan(s: Seq<char>) -> (Seq<Seq<char>>, Seq<char>)
    decreases s.len(),
{
    if s.len() == 0 {
        (seq![], seq![])
    } else {
        let (done, cur) = chunk_scan(s.drop_last());
        if is_splitter(s.last()) {
            (done.push(cur), seq![])
        } else {
            (done, cur.push(s.last()))
        }
    }
}

/// The chunks of `s` between splitters, the last one included (chunks may be empty).
pub open spec fn chunks(s: Seq<char>) -> Seq<Seq<char>> {
    chunk_scan(s).0.push(chunk_scan(s).1)
}

/// The views of some character vectors.
pub open spec fn char_views(v: Seq<Vec<char>>) -> Seq<Seq<char>> {
    v.map_values(|w: Vec<char>| w@)
}

/// Cuts a text into its chunks between splitters.
pub fn split_chunks(v: &[char]) -> (r: Vec<Vec<char>>)
    ensures
        char_views(r@) == chunks(v@),
{
    let mut done: Vec<Vec<char>> = Vec::new();
    let mut cur: Vec<char> = Vec::new();
    let mut i: usize = 0;
    while i < v.len()
        invariant
            i <= v.len(),
            char_views(done@) == chunk_scan(v@.take(i as int)).0,
            cur@ == chunk_scan(v@.take(i as int)).1,
        decreases v.len() - i,
    {
        proof {
            assert(v@.take(i + 1).drop_last() =~= v@.take(i as int));
        }
        if splitter(v[i]) {
            let c = cur;
            let ghost before = char_views(done@);
            done.push(c);
            cur = Vec::new();
            proof {
                assert(char_views(done@) =~= before.push(c@));
            }
        } else {
            cur.push(v[i]);
        }
        i += 1;
    }
    proof {
        assert(v@.take(v.len() as int) =~= v@);
    }
    let ghost before = char_views(done@);
    let ghost last = cur@;
    done.push(cur);
    proof {
        assert(char_views(done@) =~= before.push(last));
    }
    done
}

// ---------------------------------------------------------------------------
// Normalization
// ---------------------------------------------------------------------------

/// The characters `char::to_lowercase` yields for a character.
pub uninterp spec fn char_lowercase(c: char) -> Seq<char>;

/// Calls `char::to_lowercase` and collects what it yields. Claimed: the
/// result is the named lowercase mapping of the character; as the
/// documentation states it is one or more characters; an ASCII capital
/// letter maps to its small letter, as Unicode's case data has it.
#[verifier::external_body]
fn lowercase_of(c: char) -> (r: Vec<char>)
    ensures
        r@ == char_lowercase(c),
        r@.len() >= 1,
        'A' <= c <= 'Z' ==> r@ == seq![((c as u32) + 32) as char],
{
    c.to_lowercase().collect()
}

/// A text with every character replaced by its lowercase mapping.
pub open spec fn lowered(s: Seq<char>) -> Seq<char>
    decreases s.len(),
{
    if s.len() == 0 {
        s
    } else {
        lowered(s.drop_last()) + char_lowercase(s.last())
    }
}

/// The blank a character stands for in a normalized text: the ideographic
/// space and the no-break space become a plain space.
pub open spec fn plain_blank(c: char) -> char {
    if c == '\u{3000}' || c == '\u{a0}' {
        ' '
    } else {
        c
    }
}

/// The normalized form of a text: lowercased, with the ideographic and
/// no-break spaces made plain spaces.
#[verifier::opaque]
pub open spec fn normalized(s: Seq<char>) -> Seq<char> {
    lowered(s).map_values(|c: char| plain_blank(c))
}

/// Normalizes a text for matching.
pub fn normalize(v: &[char]) -> (r: Vec<char>)
    ensures
        r@ == normalized(v@),
{
    proof {
        reveal(normalized);
    }
    let mut low: Vec<char> = Vec::new();
    let mut i: usize = 0;
    while i < v.len()
        invariant
            i <= v.len(),
            low@ == lowered(v@.take(i as int)),
        decreases v.len() - i,
    {
        proof {
            assert(v@.take(i + 1).drop_last() =~= v@.take(i as int));
        }
        let l = lowercase_of(v[i]);
        append_chars(&mut low, l.as_slice());
        i += 1;
    }
    proof {
        assert(v@.take(v.len() as int) =~= v@);
    }
    let mut r: Vec<char> = Vec::new();
    let mut k: usize = 0;
    while k < low.len()
        invariant
            k <= low.len(),
            low@ == lowered(v@),
            r@ == low@.take(k as int).map_values(|c: char| plain_blank(c)),
        decreases low.len() - k,
    {
        let c = low[k];
        let b = if c == '\u{3000}' || c == '\u{a0}' {
            ' '
        } else {
            c
        };
        r.push(b);
        proof {
            assert(low@.take(k + 1).map_values(|c: char| plain_blank(c)) =~= low@.take(
                k as int,
            ).map_values(|c: char| plain_blank(c)).push(plain_blank(c)));
        }
        k += 1;
    }
    proof {
        assert(low@.take(low.len() as int) =~= low@);
    }
    r
}

/// Where a term occurs in a normalized text: the character index of its
/// first occurrence once the term is normalized too; a term shorter than two
/// characters after normalization never occurs.
#[verifier::opaque]
pub open spec fn term_index(haystack: Seq<char>, term: Seq<char>) -> Option<int> {
    let needle = normalized(term);
    if needle.len() < 2 || !contains_seq(haystack, needle) {
        None
    } else {
        Some(first_match(haystack, needle))
    }
}

/// Finds a term in a normalized text; see `term_index`.
pub fn find_term(haystack: &[char], term: &[char]) -> (r: Option<usize>)
    ensures
        opt_index(r) == term_index(haystack@, term@),
        r matches Some(i) ==> i < haystack@.len(),
{
    proof {
        reveal(term_index);
    }
    let needle = normalize(term);
    if needle.len() < 2 {
        return None;
    }
    find_chars(haystack, needle.as_slice())
}


// ---------------------------------------------------------------------------
// Candidate terms
// ---------------------------------------------------------------------------

/// What, besides stop words and short terms, keeps a term out of a list: for
/// an entry's description keywords, its title, its aliases, and any part of
/// its title; for a query, nothing.
pub open spec fn excluded(ex: Option<(Seq<char>, Seq<Seq<char>>)>, t: Seq<char>) -> bool {
    match ex {
        None => false,
        Some((title, aliases)) => t == title || aliases.contains(t) || contains_seq(title, t),
    }
}

/// The list after offering it one term: the term is added unless it is
/// shorter than two characters, a stop word, excluded, or already there.
pub open spec fn accept(
    tokens: Seq<Seq<char>>,
    t: Seq<char>,
    ex: Option<(Seq<char>, Seq<Seq<char>>)>,
) -> Seq<Seq<char>> {
    if t.len() < 2 || is_stop_word(t) || excluded(ex, t) || tokens.contains(t) {
        tokens
    } else {
        tokens.push(t)
    }
}

/// The list after offering it the terms in order.
pub open spec fn accept_all(
    tokens: Seq<Seq<char>>,
    terms: Seq<Seq<char>>,
    ex: Option<(Seq<char>, Seq<Seq<char>>)>,
) -> Seq<Seq<char>>
    decreases terms.len(),
{
    if terms.len() == 0 {
        tokens
    } else {
        accept(accept_all(tokens, terms.drop_last(), ex), terms.last(), ex)
    }
}

proof fn lemma_accept_all_concat(
    tokens: Seq<Seq<char>>,
    a: Seq<Seq<char>>,
    b: Seq<Seq<char>>,
    ex: Option<(Seq<char>, Seq<Seq<char>>)>,
)
    ensures
        accept_all(tokens, a + b, ex) == accept_all(accept_all(tokens, a, ex), b, ex),
    decreases b.len(),
{
    if b.len() == 0 {
        assert(a + b =~= a);
    } else {
        lemma_accept_all_concat(tokens, a, b.drop_last(), ex);
        assert((a + b).drop_last() =~= a + b.drop_last());
        assert((a + b).last() == b.last());
    }
}

/// The windows of `len` consecutive characters of `t`, left to right.
pub open spec fn windows(t: Seq<char>, len: int) -> Seq<Seq<char>> {
    Seq::new((t.len() - len + 1) as nat, |s: int| t.subrange(s, s + len))
}

/// The terms a chunk of a query offers: the trimmed chunk itself when it has
/// at most twelve characters, then its windows of two, three and four
/// characters (as long as the chunk allows).
pub open spec fn query_chunk_terms(chunk: Seq<char>) -> Seq<Seq<char>> {
    let t = trim(chunk);
    let n = t.len();
    if n < 2 {
        seq![]
    } else {
        (if n <= 12 {
            seq![t]
        } else {
            seq![]
        }) + windows(t, 2) + (if n >= 3 {
            windows(t, 3)
        } else {
            seq![]
        }) + (if n >= 4 {
            windows(t, 4)
        } else {
            seq![]
        })
    }
}

/// The terms a chunk of an entry's description offers: the trimmed chunk
/// when it has two to twelve characters, and then its first two, last two
/// and (from four characters on) last three characters.
pub open spec fn summary_chunk_terms(chunk: Seq<char>) -> Seq<Seq<char>> {
    let t = trim(chunk);
    let n = t.len();
    if n < 2 || n > 12 {
        seq![]
    } else if n >= 4 {
        seq![t, t.take(2), t.skip(n - 2), t.skip(n - 3)]
    } else if n == 3 {
        seq![t, t.take(2), t.skip(n - 2)]
    } else {
        seq![t]
    }
}

/// The list after offering it the terms of each chunk in turn.
pub open spec fn tokens_of_chunks(
    tokens: Seq<Seq<char>>,
    chs: Seq<Seq<char>>,
    query: bool,
    ex: Option<(Seq<char>, Seq<Seq<char>>)>,
) -> Seq<Seq<char>>
    decreases chs.len(),
{
    if chs.len() == 0 {
        tokens
    } else {
        accept_all(
            tokens_of_chunks(tokens, chs.drop_last(), query, ex),
            if query {
                query_chunk_terms(chs.last())
            } else {
                summary_chunk_terms(chs.last())
            },
            ex,
        )
    }
}

/// The candidate terms of a query text, without repeats, in the order found.
pub open spec fn query_terms(text: Seq<char>) -> Seq<Seq<char>> {
    tokens_of_chunks(seq![], chunks(text), true, None)
}

/// Whether a term is in the list.
pub fn contains_token(tokens: &Vec<Vec<char>>, t: &[char]) -> (r: bool)
    ensures
        r == char_views(tokens@).contains(t@),
{
    let mut i: usize = 0;
    while i < tokens.len()
        invariant
            i <= tokens.len(),
            forall|k: int| 0 <= k < i ==> tokens@[k]@ != t@,
        decreases tokens.len() - i,
    {
        if same_chars(tokens[i].as_slice(), t) {
            assert(char_views(tokens@)[i as int] == t@);
            return true;
        }
        i += 1;
    }
    assert forall|k: int| 0 <= k < char_views(tokens@).len() implies char_views(tokens@)[k]
        != t@ by {
        assert(char_views(tokens@)[k] == tokens@[k]@);
    }
    false
}

/// The exclusion view of an optional title and its aliases.
pub open spec fn exclusion_of(title: Option<&[char]>, aliases: Seq<Vec<char>>) -> Option<
    (Seq<char>, Seq<Seq<char>>),
> {
    match title {
        None => None,
        Some(t) => Some((t@, char_views(aliases))),
    }
}

fn is_excluded(title: Option<&[char]>, aliases: &Vec<Vec<char>>, t: &[char]) -> (r: bool)
    ensures
        r == excluded(exclusion_of(title, aliases@), t@),
{
    match title {
        None => false,
        Some(ti) => same_chars(t, ti) || contains_token(aliases, t) || contains_chars(ti, t),
    }
}

/// Offers one term to the list.
pub fn accept_token(tokens: &mut Vec<Vec<char>>, t: &[char], title: Option<&[char]>, aliases: &Vec<Vec<char>>)
    ensures
        char_views(final(tokens)@) == accept(char_views(old(tokens)@), t@, exclusion_of(title, aliases@)),
{
    if t.len() < 2 || is_stop(t) || is_excluded(title, aliases, t) || contains_token(tokens, t) {
        return;
    }
    let ghost before = char_views(tokens@);
    let w = slice_to_vec(t, 0, t.len());
    assert(w@ =~= t@);
    tokens.push(w);
    assert(char_views(tokens@) =~= before.push(t@));
}

/// Offers the terms to the list in order.
pub fn accept_terms(
    tokens: &mut Vec<Vec<char>>,
    terms: &Vec<Vec<char>>,
    title: Option<&[char]>,
    aliases: &Vec<Vec<char>>,
)
    ensures
        char_views(final(tokens)@) == accept_all(
            char_views(old(tokens)@),
            char_views(terms@),
            exclusion_of(title, aliases@),
        ),
{
    let ghost t0 = char_views(tokens@);
    let ghost tv = char_views(terms@);
    let mut i: usize = 0;
    while i < terms.len()
        invariant
            i <= terms.len(),
            tv == char_views(terms@),
            char_views(tokens@) == accept_all(t0, tv.take(i as int), exclusion_of(title, aliases@)),
        decreases terms.len() - i,
    {
        proof {
            assert(tv.take(i + 1).drop_last() =~= tv.take(i as int));
            assert(tv.take(i + 1).last() == terms@[i as int]@);
        }
        accept_token(tokens, terms[i].as_slice(), title, aliases);
        i += 1;
    }
    assert(tv.take(terms.len() as int) =~= tv);
}

/// Appends the windows of `len` characters of `t`.
fn push_windows(r: &mut Vec<Vec<char>>, t: &[char], len: usize)
    requires
        1 <= len <= t.len(),
    ensures
        char_views(final(r)@) == char_views(old(r)@) + windows(t@, len as int),
{
    let ghost r0 = char_views(r@);
    let n = t.len();
    let mut s: usize = 0;
    while s <= n - len
        invariant
            1 <= len <= n == t.len(),
            s <= n - len + 1,
            char_views(r@) == r0 + windows(t@, len as int).take(s as int),
        decreases n - len + 1 - s,
    {
        let w = slice_to_vec(t, s, s + len);
        let ghost before = char_views(r@);
        r.push(w);
        proof {
            assert(windows(t@, len as int)[s as int] == t@.subrange(s as int, s + len));
            assert(windows(t@, len as int).take(s + 1) =~= windows(t@, len as int).take(
                s as int,
            ).push(t@.subrange(s as int, s + len)));
            assert(char_views(r@) =~= before.push(w@));
        }
        s += 1;
    }
    assert(windows(t@, len as int).take((n - len + 1) as int) =~= windows(t@, len as int));
}

/// The terms a query chunk offers; see `query_chunk_terms`.
pub fn query_chunk_terms_of(chunk: &[char]) -> (r: Vec<Vec<char>>)
    ensures
        char_views(r@) == query_chunk_terms(chunk@),
{
    let t = trimmed(chunk);
    let n = t.len();
    let mut r: Vec<Vec<char>> = Vec::new();
    if n < 2 {
        assert(char_views(r@) =~= seq![]);
        return r;
    }
    if n <= 12 {
        let w = slice_to_vec(t.as_slice(), 0, n);
        assert(w@ =~= t@);
        r.push(w);
    }
    let ghost first = char_views(r@);
    assert(first =~= (if n <= 12 {
        seq![t@]
    } else {
        seq![]
    }));
    push_windows(&mut r, t.as_slice(), 2);
    if n >= 3 {
        push_windows(&mut r, t.as_slice(), 3);
    }
    let ghost w3: Seq<Seq<char>> = if n >= 3 {
        windows(t@, 3)
    } else {
        seq![]
    };
    assert(char_views(r@) =~= first + windows(t@, 2) + w3);
    if n >= 4 {
        push_windows(&mut r, t.as_slice(), 4);
    }
    let ghost w4: Seq<Seq<char>> = if n >= 4 {
        windows(t@, 4)
    } else {
        seq![]
    };
    assert(char_views(r@) =~= first + windows(t@, 2) + w3 + w4);
    r
}

/// The terms a description chunk offers; see `summary_chunk_terms`.
pub fn summary_chunk_terms_of(chunk: &[char]) -> (r: Vec<Vec<char>>)
    ensures
        char_views(r@) == summary_chunk_terms(chunk@),
{
    let t = trimmed(chunk);
    let n = t.len();
    let mut r: Vec<Vec<char>> = Vec::new();
    if n < 2 || n > 12 {
        assert(char_views(r@) =~= seq![]);
        return r;
    }
    let whole = slice_to_vec(t.as_slice(), 0, n);
    assert(whole@ =~= t@);
    r.push(whole);
    if n >= 4 {
        let a = slice_to_vec(t.as_slice(), 0, 2);
        let b = slice_to_vec(t.as_slice(), n - 2, n);
        let c = slice_to_vec(t.as_slice(), n - 3, n);
        assert(a@ =~= t@.take(2));
        assert(b@ =~= t@.skip(n - 2));
        assert(c@ =~= t@.skip(n - 3));
        r.push(a);
        r.push(b);
        r.push(c);
        assert(char_views(r@) =~= seq![t@, t@.take(2), t@.skip(n - 2), t@.skip(n - 3)]);
    } else if n == 3 {
        let a = slice_to_vec(t.as_slice(), 0, 2);
        let b = slice_to_vec(t.as_slice(), n - 2, n);
        assert(a@ =~= t@.take(2));
        assert(b@ =~= t@.skip(n - 2));
        r.push(a);
        r.push(b);
        assert(char_views(r@) =~= seq![t@, t@.take(2), t@.skip(n - 2)]);
    } else {
        assert(char_views(r@) =~= seq![t@]);
    }
    r
}

/// The candidate terms of a query text; see `query_terms`.
pub fn query_tokens(text: &[char]) -> (r: Vec<Vec<char>>)
    ensures
        char_views(r@) == query_terms(text@),
{
    let chs = split_chunks(text);
    let ghost cv = char_views(chs@);
    let none: Vec<Vec<char>> = Vec::new();
    let mut tokens: Vec<Vec<char>> = Vec::new();
    let mut i: usize = 0;
    assert(char_views(tokens@) =~= seq![]);
    while i < chs.len()
        invariant
            i <= chs.len(),
            cv == char_views(chs@),
            cv == chunks(text@),
            none@.len() == 0,
            char_views(tokens@) == tokens_of_chunks(seq![], cv.take(i as int), true, None),
        decreases chs.len() - i,
    {
        proof {
            assert(cv.take(i + 1).drop_last() =~= cv.take(i as int));
            assert(cv.take(i + 1).last() == chs@[i as int]@);
        }
        let terms = query_chunk_terms_of(chs[i].as_slice());
        accept_terms(&mut tokens, &terms, None, &none);
        i += 1;
    }
    assert(cv.take(chs.len() as int) =~= cv);
    tokens
}

// ---------------------------------------------------------------------------
// Description keywords
// ---------------------------------------------------------------------------

/// Where a term of length `n` goes into a list already ordered longest
/// first so that the order is stable: after every term at least as long.
pub open spec fn length_insertion_point(s: Seq<Seq<char>>, n: nat) -> int
    decreases s.len(),
{
    if s.len() == 0 {
        0
    } else if s[0].len() < n {
        0
    } else {
        1 + length_insertion_point(s.drop_first(), n)
    }
}

/// The terms stably ordered longest first.
pub open spec fn sorted_by_length(s: Seq<Seq<char>>) -> Seq<Seq<char>>
    decreases s.len(),
{
    if s.len() == 0 {
        s
    } else {
        let t = sorted_by_length(s.drop_last());
        t.insert(length_insertion_point(t, s.last().len()), s.last())
    }
}

/// The terms with each run of equal neighbours cut to its first.
pub open spec fn dedup_adjacent(s: Seq<Seq<char>>) -> Seq<Seq<char>>
    decreases s.len(),
{
    if s.len() == 0 {
        s
    } else {
        let d = dedup_adjacent(s.drop_last());
        if s.len() >= 2 && s[s.len() - 2] == s.last() {
            d
        } else {
            d.push(s.last())
        }
    }
}

/// The keywords of an entry's description: the candidate terms of its
/// chunks that are neither its title, an alias, nor part of its title,
/// ordered longest first (stably), equal neighbours merged.
#[verifier::opaque]
pub open spec fn summary_keyword_terms(
    summary: Seq<char>,
    title: Seq<char>,
    aliases: Seq<Seq<char>>,
) -> Seq<Seq<char>> {
    dedup_adjacent(
        sorted_by_length(tokens_of_chunks(seq![], chunks(summary), false, Some((title, aliases)))),
    )
}

fn sort_by_length(v: Vec<Vec<char>>) -> (r: Vec<Vec<char>>)
    ensures
        char_views(r@) == sorted_by_length(char_views(v@)),
{
    let ghost all = char_views(v@);
    let mut out: Vec<Vec<char>> = Vec::new();
    let mut rest = v;
    let mut i: usize = 0;
    let n = rest.len();
    while i < n
        invariant
            i <= n == rest.len(),
            all == char_views(rest@),
            char_views(out@) == sorted_by_length(all.take(i as int)),
        decreases n - i,
    {
        proof {
            assert(all.take(i + 1).drop_last() =~= all.take(i as int));
            assert(all.take(i + 1).last() == rest@[i as int]@);
        }
        let term = slice_to_vec(rest[i].as_slice(), 0, rest[i].len());
        assert(term@ =~= rest@[i as int]@);
        let len = term.len();
        let mut j: usize = 0;
        assert(char_views(out@).skip(0) =~= char_views(out@));
        while j < out.len() && out[j].len() >= len
            invariant
                j <= out.len(),
                length_insertion_point(char_views(out@), len as nat) == j + length_insertion_point(
                    char_views(out@).skip(j as int),
                    len as nat,
                ),
            decreases out.len() - j,
        {
            proof {
                let s = char_views(out@).skip(j as int);
                assert(s.drop_first() =~= char_views(out@).skip(j + 1));
                assert(s[0] == out@[j as int]@);
            }
            j += 1;
        }
        proof {
            let s = char_views(out@).skip(j as int);
            if j < out.len() {
                assert(s[0] == out@[j as int]@);
            }
        }
        let ghost before = char_views(out@);
        let ghost tv = term@;
        out.insert(j, term);
        proof {
            assert(char_views(out@) =~= before.insert(j as int, tv));
        }
        i += 1;
    }
    assert(all.take(n as int) =~= all);
    out
}

pub fn dedup_terms(v: &Vec<Vec<char>>) -> (r: Vec<Vec<char>>)
    ensures
        char_views(r@) == dedup_adjacent(char_views(v@)),
{
    let ghost all = char_views(v@);
    let mut out: Vec<Vec<char>> = Vec::new();
    let mut i: usize = 0;
    while i < v.len()
        invariant
            i <= v.len(),
            all == char_views(v@),
            char_views(out@) == dedup_adjacent(all.take(i as int)),
        decreases v.len() - i,
    {
        proof {
            assert(all.take(i + 1).drop_last() =~= all.take(i as int));
            assert(all.take(i + 1).last() == v@[i as int]@);
            if i >= 1 {
                assert(all.take(i + 1)[i - 1] == v@[i - 1]@);
            }
        }
        if i >= 1 && same_chars(v[i - 1].as_slice(), v[i].as_slice()) {
        } else {
            let w = slice_to_vec(v[i].as_slice(), 0, v[i].len());
            assert(w@ =~= v@[i as int]@);
            let ghost before = char_views(out@);
            out.push(w);
            proof {
                assert(char_views(out@) =~= before.push(v@[i as int]@));
            }
        }
        i += 1;
    }
    assert(all.take(v.len() as int) =~= all);
    out
}

/// The keywords of an entry's description; see `summary_keyword_terms`.
pub fn summary_keywords(summary: &[char], title: &[char], aliases: &Vec<Vec<char>>) -> (r: Vec<Vec<char>>)
    ensures
        char_views(r@) == summary_keyword_terms(summary@, title@, char_views(aliases@)),
{
    let chs = split_chunks(summary);
    let ghost cv = char_views(chs@);
    let ghost ex = Some((title@, char_views(aliases@)));
    let mut tokens: Vec<Vec<char>> = Vec::new();
    let mut i: usize = 0;
    assert(char_views(tokens@) =~= seq![]);
    while i < chs.len()
        invariant
            i <= chs.len(),
            cv == char_views(chs@),
            cv == chunks(summary@),
            ex == exclusion_of(Some(title), aliases@),
            char_views(tokens@) == tokens_of_chunks(seq![], cv.take(i as int), false, ex),
        decreases chs.len() - i,
    {
        proof {
            assert(cv.take(i + 1).drop_last() =~= cv.take(i as int));
            assert(cv.take(i + 1).last() == chs@[i as int]@);
        }
        let terms = summary_chunk_terms_of(chs[i].as_slice());
        accept_terms(&mut tokens, &terms, Some(title), aliases);
        i += 1;
    }
    assert(cv.take(chs.len() as int) =~= cv);
    let sorted = sort_by_length(tokens);
    proof {
        reveal(summary_keyword_terms);
    }
    dedup_terms(&sorted)
}

// ---------------------------------------------------------------------------
// Title cores
// ---------------------------------------------------------------------------

/// The cores of a title of three or more characters: its last two
/// characters, and from four characters on its last three, each unless it is
/// a stop word.
#[verifier::opaque]
pub open spec fn title_core_terms(title: Seq<char>) -> Seq<Seq<char>> {
    let n = title.len();
    if n < 3 {
        seq![]
    } else {
        (if !is_stop_word(title.skip(n - 2)) && title.skip(n - 2) != title {
            seq![title.skip(n - 2)]
        } else {
            seq![]
        }) + (if n >= 4 && !is_stop_word(title.skip(n - 3)) {
            seq![title.skip(n - 3)]
        } else {
            seq![]
        })
    }
}

/// The cores of a title; see `title_core_terms`.
pub fn title_cores(title: &[char]) -> (r: Vec<Vec<char>>)
    ensures
        char_views(r@) == title_core_terms(title@),
{
    proof {
        reveal(title_core_terms);
    }
    let n = title.len();
    let mut cores: Vec<Vec<char>> = Vec::new();
    if n < 3 {
        assert(char_views(cores@) =~= seq![]);
        return cores;
    }
    let suffix2 = slice_to_vec(title, n - 2, n);
    assert(suffix2@ =~= title@.skip(n - 2));
    let keep2 = !is_stop(suffix2.as_slice()) && !same_chars(suffix2.as_slice(), title);
    if keep2 {
        cores.push(suffix2);
    }
    let ghost first: Seq<Seq<char>> = if keep2 {
        seq![title@.skip(n - 2)]
    } else {
        seq![]
    };
    assert(char_views(cores@) =~= first);
    if n >= 4 {
        let suffix3 = slice_to_vec(title, n - 3, n);
        assert(suffix3@ =~= title@.skip(n - 3));
        if !is_stop(suffix3.as_slice()) {
            let ghost before = char_views(cores@);
            cores.push(suffix3);
            assert(char_views(cores@) =~= before.push(title@.skip(n - 3)));
        }
    }
    assert(char_views(cores@) =~= title_core_terms(title@));
    cores
}

// ---------------------------------------------------------------------------
// Lexical retrieval
// ---------------------------------------------------------------------------

/// The terms whose normalized form occurs in the haystack, in order.
pub open spec fn found_terms(terms: Seq<Seq<char>>, hay: Seq<char>) -> Seq<Seq<char>>
    decreases terms.len(),
{
    if terms.len() == 0 {
        terms
    } else {
        let rest = found_terms(terms.drop_last(), hay);
        if contains_seq(hay, normalized(terms.last())) {
            rest.push(terms.last())
        } else {
            rest
        }
    }
}

/// The first of the longest terms.
pub open spec fn longest_term(terms: Seq<Seq<char>>) -> Seq<char>
    decreases terms.len(),
{
    if terms.len() <= 1 {
        terms[0]
    } else {
        let best = longest_term(terms.drop_last());
        if terms.last().len() > best.len() {
            terms.last()
        } else {
            best
        }
    }
}

/// The text a lexical retrieval searches: the title, the aliases joined by
/// spaces, and the description, separated by spaces, normalized.
pub open spec fn retrieval_haystack(
    title: Seq<char>,
    aliases: Seq<Seq<char>>,
    summary: Seq<char>,
) -> Seq<char> {
    normalized(title + seq![' '] + crate::text::join(aliases, seq![' ']) + seq![' '] + summary)
}

/// The term a lexical retrieval finds for an entry: among the query terms
/// of the current paragraph that occur in the entry's text, the first of
/// the longest.
#[verifier::opaque]
pub open spec fn retrieved_term(
    current: Seq<char>,
    title: Seq<char>,
    aliases: Seq<Seq<char>>,
    summary: Seq<char>,
) -> Option<Seq<char>> {
    let found = found_terms(query_terms(current), retrieval_haystack(title, aliases, summary));
    if found.len() == 0 {
        None
    } else {
        Some(longest_term(found))
    }
}

/// Retrieves a term of the current paragraph from an entry's text; see
/// `retrieved_term`.
pub fn retrieve_term(current: &[char], title: &[char], aliases: &Vec<Vec<char>>, summary: &[char]) -> (r:
    Option<Vec<char>>)
    ensures
        match retrieved_term(current@, title@, char_views(aliases@), summary@) {
            Some(t) => (r matches Some(v) && v@ == t),
            None => r is None,
        },
{
    proof {
        reveal(retrieved_term);
    }
    let mut text: Vec<char> = slice_to_vec(title, 0, title.len());
    text.push(' ');
    let sep = [' '];
    let joined = crate::text::join_chars(aliases, &sep);
    append_chars(&mut text, joined.as_slice());
    text.push(' ');
    append_chars(&mut text, summary);
    proof {
        assert(sep@ =~= seq![' ']);
        assert(aliases@.map_values(|p: Vec<char>| p@) =~= char_views(aliases@));
        assert(text@ =~= title@ + seq![' '] + crate::text::join(char_views(aliases@), seq![' '])
            + seq![' '] + summary@);
    }
    let hay = normalize(text.as_slice());
    let tokens = query_tokens(current);
    let ghost tv = char_views(tokens@);
    let mut best: Option<Vec<char>> = None;
    let ghost mut found: Seq<Seq<char>> = seq![];
    let mut i: usize = 0;
    while i < tokens.len()
        invariant
            i <= tokens.len(),
            tv == char_views(tokens@),
            found == found_terms(tv.take(i as int), hay@),
            found.len() == 0 <==> best is None,
            found.len() > 0 ==> (best matches Some(b) && b@ == longest_term(found)),
        decreases tokens.len() - i,
    {
        proof {
            assert(tv.take(i + 1).drop_last() =~= tv.take(i as int));
            assert(tv.take(i + 1).last() == tokens@[i as int]@);
        }
        let needle = normalize(tokens[i].as_slice());
        if contains_chars(hay.as_slice(), needle.as_slice()) {
            let ghost prev = found;
            proof {
                found = found.push(tokens@[i as int]@);
                assert(found.drop_last() =~= prev);
            }
            let replace = match &best {
                None => true,
                Some(b) => tokens[i].len() > b.len(),
            };
            if replace {
                let w = slice_to_vec(tokens[i].as_slice(), 0, tokens[i].len());
                assert(w@ =~= tokens@[i as int]@);
                best = Some(w);
            }
        }
        i += 1;
    }
    assert(tv.take(tokens.len() as int) =~= tv);
    best
}

// ---------------------------------------------------------------------------
// Story entries and their signals
// ---------------------------------------------------------------------------

/// What a designed story entry describes.
#[derive(Debug, Clone, Copy, PartialEq, Eq, Structural)]
pub enum StoryEntryKind {
    Character,
    Setting,
    Foreshadow,
}

/// The parts of a designed story entry that matching reads.
#[derive(Debug, Clone, PartialEq, Eq)]
pub struct StoryEntry {
    pub kind: StoryEntryKind,
    pub title: String,
    pub aliases: Vec<String>,
    pub summary: String,
}

/// The title an entry is matched by: the canonical name split off its
/// trimmed title when that has two or more characters, else the trimmed
/// title.
pub open spec fn chosen_title(raw_title: Seq<char>, canonical: Seq<char>) -> Seq<char> {
    if canonical.len() >= 2 {
        canonical
    } else {
        trim(raw_title)
    }
}

/// An entry whose trimmed title has fewer than two characters is matched by
/// no title (a canonical name split off that title is no longer than it),
/// so `entry_signals` finds nothing for it, whatever the paragraphs.
pub proof fn lemma_short_title_matches_nothing(raw_title: Seq<char>, canonical: Seq<char>)
    requires
        trim(raw_title).len() < 2,
        canonical.len() <= trim(raw_title).len(),
    ensures
        chosen_title(raw_title, canonical).len() < 2,
{
}

/// The entry's own aliases, trimmed, keeping those of two or more
/// characters that differ from the title.
pub open spec fn base_aliases(raw: Seq<Seq<char>>, title: Seq<char>) -> Seq<Seq<char>>
    decreases raw.len(),
{
    if raw.len() == 0 {
        seq![]
    } else {
        let prev = base_aliases(raw.drop_last(), title);
        let a = trim(raw.last());
        if a.len() >= 2 && a != title {
            prev.push(a)
        } else {
            prev
        }
    }
}

/// The aliases with those split off the title added: each of two or more
/// characters that differs from the title and is not there yet.
pub open spec fn with_extra_aliases(
    aliases: Seq<Seq<char>>,
    extra: Seq<Seq<char>>,
    title: Seq<char>,
) -> Seq<Seq<char>>
    decreases extra.len(),
{
    if extra.len() == 0 {
        aliases
    } else {
        let prev = with_extra_aliases(aliases, extra.drop_last(), title);
        let e = extra.last();
        if e.len() >= 2 && e != title && !prev.contains(e) {
            prev.push(e)
        } else {
            prev
        }
    }
}

/// Each term that occurs in the normalized text, with where it first occurs.
pub open spec fn term_hits(terms: Seq<Seq<char>>, hay: Seq<char>) -> Seq<(Seq<char>, int)>
    decreases terms.len(),
{
    if terms.len() == 0 {
        seq![]
    } else {
        let prev = term_hits(terms.drop_last(), hay);
        match term_index(hay, terms.last()) {
            Some(i) => prev.push((terms.last(), i)),
            None => prev,
        }
    }
}

/// The first term that occurs in the normalized text.
pub open spec fn first_found(terms: Seq<Seq<char>>, hay: Seq<char>) -> Option<Seq<char>>
    decreases terms.len(),
{
    if terms.len() == 0 {
        None
    } else {
        match first_found(terms.drop_last(), hay) {
            Some(t) => Some(t),
            None => if term_index(hay, terms.last()) is Some {
                Some(terms.last())
            } else {
                None
            },
        }
    }
}

/// Everything the paragraph being written and the previous one say about an
/// entry. Indices count characters of the normalized texts.
#[derive(Debug, Clone, PartialEq, Eq)]
pub struct EntrySignals {
    /// The title the entry is matched by.
    pub title: String,
    /// The aliases the entry is matched by.
    pub aliases: Vec<String>,
    /// The normalized current paragraph.
    pub current: String,
    /// The normalized previous paragraph.
    pub lookback: String,
    /// Where the title occurs in the current paragraph.
    pub title_hit: Option<usize>,
    /// The aliases that occur in the current paragraph, with where.
    pub alias_hits: Vec<(String, usize)>,
    /// The title cores that occur in the current paragraph, with where.
    pub core_hits: Vec<(String, usize)>,
    /// The description keywords that occur in the current paragraph, with where.
    pub keyword_hits: Vec<(String, usize)>,
    /// Where the title occurs in the previous paragraph.
    pub lookback_title: Option<usize>,
    /// The first alias that occurs in the previous paragraph.
    pub lookback_alias: Option<String>,
    /// The term a lexical retrieval over the entry's text finds.
    pub retrieved: Option<String>,
}

/// The views of some hits.
pub open spec fn hit_views(v: Seq<(String, usize)>) -> Seq<(Seq<char>, int)> {
    v.map_values(|h: (String, usize)| (h.0@, h.1 as int))
}

/// An optional index as an integer.
pub open spec fn opt_index(o: Option<usize>) -> Option<int> {
    match o {
        Some(i) => Some(i as int),
        None => None,
    }
}

fn string_list(v: &Vec<Vec<char>>) -> (r: Vec<String>)
    ensures
        crate::protocol::string_views(r@) == char_views(v@),
{
    let mut r: Vec<String> = Vec::new();
    let mut i: usize = 0;
    while i < v.len()
        invariant
            i <= v.len(),
            r@.len() == i,
            forall|k: int| 0 <= k < i ==> #[trigger] r@[k]@ == v@[k]@,
        decreases v.len() - i,
    {
        r.push(string_of(v[i].as_slice()));
        i += 1;
    }
    assert(crate::protocol::string_views(r@) =~= char_views(v@));
    r
}

fn char_lists(v: &Vec<String>) -> (r: Vec<Vec<char>>)
    ensures
        char_views(r@) == crate::protocol::string_views(v@),
{
    let mut r: Vec<Vec<char>> = Vec::new();
    let mut i: usize = 0;
    while i < v.len()
        invariant
            i <= v.len(),
            r@.len() == i,
            forall|k: int| 0 <= k < i ==> #[trigger] r@[k]@ == v@[k]@,
        decreases v.len() - i,
    {
        r.push(chars_of(v[i].as_str()));
        i += 1;
    }
    assert(char_views(r@) =~= crate::protocol::string_views(v@));
    r
}

fn hits_of(terms: &Vec<Vec<char>>, hay: &[char]) -> (r: Vec<(String, usize)>)
    ensures
        hit_views(r@) == term_hits(char_views(terms@), hay@),
{
    let ghost tv = char_views(terms@);
    let mut r: Vec<(String, usize)> = Vec::new();
    let mut i: usize = 0;
    while i < terms.len()
        invariant
            i <= terms.len(),
            tv == char_views(terms@),
            hit_views(r@) == term_hits(tv.take(i as int), hay@),
        decreases terms.len() - i,
    {
        proof {
            assert(tv.take(i + 1).drop_last() =~= tv.take(i as int));
            assert(tv.take(i + 1).last() == terms@[i as int]@);
        }
        let found = find_term(hay, terms[i].as_slice());
        assert(opt_index(found) == term_index(hay@, terms@[i as int]@));
        match found {
            Some(at) => {
                let ghost before = hit_views(r@);
                r.push((string_of(terms[i].as_slice()), at));
                proof {
                    assert(hit_views(r@) =~= before.push((terms@[i as int]@, at as int)));
                }
            },
            None => {},
        }
        i += 1;
    }
    assert(tv.take(terms.len() as int) =~= tv);
    r
}

fn first_found_of(terms: &Vec<Vec<char>>, hay: &[char]) -> (r: Option<String>)
    ensures
        match first_found(char_views(terms@), hay@) {
            Some(t) => (r matches Some(s) && s@ == t),
            None => r is None,
        },
{
    let ghost tv = char_views(terms@);
    let mut i: usize = 0;
    while i < terms.len()
        invariant
            i <= terms.len(),
            tv == char_views(terms@),
            first_found(tv.take(i as int), hay@) is None,
        decreases terms.len() - i,
    {
        proof {
            assert(tv.take(i + 1).drop_last() =~= tv.take(i as int));
            assert(tv.take(i + 1).last() == terms@[i as int]@);
        }
        if find_term(hay, terms[i].as_slice()).is_some() {
            proof {
                lemma_first_found_extends(tv, hay@, i as int, tv.len() as int);
                assert(tv.take(tv.len() as int) =~= tv);
            }
            return Some(string_of(terms[i].as_slice()));
        }
        i += 1;
    }
    assert(tv.take(terms.len() as int) =~= tv);
    None
}

proof fn lemma_first_found_extends(terms: Seq<Seq<char>>, hay: Seq<char>, i: int, n: int)
    requires
        0 <= i < n <= terms.len(),
        first_found(terms.take(i), hay) is None,
        term_index(hay, terms[i]) is Some,
    ensures
        first_found(terms.take(n), hay) == Some(terms[i]),
    decreases n,
{
    assert(terms.take(n).drop_last() =~= terms.take(n - 1));
    if n > i + 1 {
        lemma_first_found_extends(terms, hay, i, n - 1);
    } else {
        assert(terms.take(n - 1) =~= terms.take(i));
    }
}

/// The signals of an entry for the current and previous paragraphs.
/// `canonical` and `extra` are what splitting the entry's trimmed title
/// into a canonical name and further aliases gave. There are none when the
/// chosen title has fewer than two characters.
pub fn entry_signals(
    current: &str,
    lookback: &str,
    entry: &StoryEntry,
    canonical: &str,
    extra: &Vec<String>,
) -> (r: Option<EntrySignals>)
    ensures
        ({
            let title = chosen_title(entry.title@, canonical@);
            let aliases = with_extra_aliases(
                base_aliases(crate::protocol::string_views(entry.aliases@), title),
                crate::protocol::string_views(extra@),
                title,
            );
            let cur = normalized(current@);
            let back = normalized(lookback@);
            if title.len() < 2 {
                r is None
            } else {
                &&& r is Some
                &&& r->0.title@ == title
                &&& crate::protocol::string_views(r->0.aliases@) == aliases
                &&& r->0.current@ == cur
                &&& r->0.lookback@ == back
                &&& opt_index(r->0.title_hit) == term_index(cur, title)
                &&& hit_views(r->0.alias_hits@) == term_hits(aliases, cur)
                &&& hit_views(r->0.core_hits@) == term_hits(title_core_terms(title), cur)
                &&& hit_views(r->0.keyword_hits@) == term_hits(
                    summary_keyword_terms(entry.summary@, title, aliases),
                    cur,
                )
                &&& opt_index(r->0.lookback_title) == term_index(back, title)
                &&& crate::protocol::opt_view(r->0.lookback_alias) == first_found(aliases, back)
                &&& crate::protocol::opt_view(r->0.retrieved) == retrieved_term(
                    current@,
                    entry.title@,
                    crate::protocol::string_views(entry.aliases@),
                    entry.summary@,
                )
            }
        }),
{
    let raw = trimmed(chars_of(entry.title.as_str()).as_slice());
    let canon = chars_of(canonical);
    let title: Vec<char> = if canon.len() >= 2 {
        canon
    } else {
        raw
    };
    if title.len() < 2 {
        return None;
    }
    let ghost tv = title@;
    // the entry's own aliases
    let raw_aliases = char_lists(&entry.aliases);
    let ghost rv = char_views(raw_aliases@);
    let mut aliases: Vec<Vec<char>> = Vec::new();
    let mut i: usize = 0;
    assert(char_views(aliases@) =~= seq![]);
    while i < raw_aliases.len()
        invariant
            i <= raw_aliases.len(),
            rv == char_views(raw_aliases@),
            tv == title@,
            char_views(aliases@) == base_aliases(rv.take(i as int), tv),
        decreases raw_aliases.len() - i,
    {
        proof {
            assert(rv.take(i + 1).drop_last() =~= rv.take(i as int));
            assert(rv.take(i + 1).last() == raw_aliases@[i as int]@);
        }
        let a = trimmed(raw_aliases[i].as_slice());
        if a.len() >= 2 && !same_chars(a.as_slice(), title.as_slice()) {
            let ghost before = char_views(aliases@);
            let ghost av = a@;
            aliases.push(a);
            proof {
                assert(char_views(aliases@) =~= before.push(av));
            }
        }
        i += 1;
    }
    assert(rv.take(raw_aliases.len() as int) =~= rv);
    // aliases split off the title
    let extras = char_lists(extra);
    let ghost ev = char_views(extras@);
    let ghost base = char_views(aliases@);
    let mut k: usize = 0;
    while k < extras.len()
        invariant
            k <= extras.len(),
            ev == char_views(extras@),
            tv == title@,
            char_views(aliases@) == with_extra_aliases(base, ev.take(k as int), tv),
        decreases extras.len() - k,
    {
        proof {
            assert(ev.take(k + 1).drop_last() =~= ev.take(k as int));
            assert(ev.take(k + 1).last() == extras@[k as int]@);
        }
        let e = &extras[k];
        if e.len() >= 2 && !same_chars(e.as_slice(), title.as_slice()) && !contains_token(
            &aliases,
            e.as_slice(),
        ) {
            let w = slice_to_vec(e.as_slice(), 0, e.len());
            assert(w@ =~= e@);
            let ghost before = char_views(aliases@);
            aliases.push(w);
            proof {
                assert(char_views(aliases@) =~= before.push(e@));
            }
        }
        k += 1;
    }
    assert(ev.take(extras.len() as int) =~= ev);
    let cur = normalize(chars_of(current).as_slice());
    let back = normalize(chars_of(lookback).as_slice());
    let title_hit = find_term(cur.as_slice(), title.as_slice());
    let alias_hits = hits_of(&aliases, cur.as_slice());
    let cores = title_cores(title.as_slice());
    let core_hits = hits_of(&cores, cur.as_slice());
    let keywords = summary_keywords(chars_of(entry.summary.as_str()).as_slice(), title.as_slice(), &aliases);
    let keyword_hits = hits_of(&keywords, cur.as_slice());
    let lookback_title = find_term(back.as_slice(), title.as_slice());
    let lookback_alias = first_found_of(&aliases, back.as_slice());
    let retrieved = match retrieve_term(
        chars_of(current).as_slice(),
        chars_of(entry.title.as_str()).as_slice(),
        &raw_aliases,
        chars_of(entry.summary.as_str()).as_slice(),
    ) {
        Some(t) => Some(string_of(t.as_slice())),
        None => None,
    };
    assert(title@ == chosen_title(entry.title@, canonical@));
    assert(char_views(raw_aliases@) == crate::protocol::string_views(entry.aliases@));
    assert(char_views(aliases@) == with_extra_aliases(
        base_aliases(crate::protocol::string_views(entry.aliases@), title@),
        crate::protocol::string_views(extra@),
        title@,
    ));
    let signals = EntrySignals {
        title: string_of(title.as_slice()),
        aliases: string_list(&aliases),
        current: string_of(cur.as_slice()),
        lookback: string_of(back.as_slice()),
        title_hit,
        alias_hits,
        core_hits,
        keyword_hits,
        lookback_title,
        lookback_alias,
        retrieved,
    };
    Some(signals)
}

/// Which signal an entry's match rests on: something in the current
/// paragraph, else the title in the previous paragraph, else an alias
/// there, else the term lexical retrieval found, else nothing.
#[derive(Debug, Clone, PartialEq, Eq)]
pub enum MatchBasis {
    Current,
    LookbackTitle(usize),
    LookbackAlias(String),
    Retrieved(String),
    Nothing,
}

/// Which signal an entry's match rests on, in the order of `MatchBasis`.
pub fn match_basis(signals: &EntrySignals) -> (r: MatchBasis)
    ensures
        (signals.title_hit is Some || signals.alias_hits@.len() > 0 || signals.core_hits@.len() > 0
            || signals.keyword_hits@.len() > 0) ==> r == MatchBasis::Current,
        !(signals.title_hit is Some || signals.alias_hits@.len() > 0 || signals.core_hits@.len() > 0
            || signals.keyword_hits@.len() > 0) ==> match signals.lookback_title {
            Some(i) => r == MatchBasis::LookbackTitle(i),
            None => match signals.lookback_alias {
                Some(a) => (r matches MatchBasis::LookbackAlias(x) && x@ == a@),
                None => match signals.retrieved {
                    Some(t) => (r matches MatchBasis::Retrieved(x) && x@ == t@),
                    None => r == MatchBasis::Nothing,
                },
            },
        },
{
    if signals.title_hit.is_some() || signals.alias_hits.len() > 0 || signals.core_hits.len() > 0
        || signals.keyword_hits.len() > 0 {
        return MatchBasis::Current;
    }
    match signals.lookback_title {
        Some(i) => MatchBasis::LookbackTitle(i),
        None => match &signals.lookback_alias {
            Some(a) => MatchBasis::LookbackAlias(crate::text::copy_string(a)),
            None => match &signals.retrieved {
                Some(t) => MatchBasis::Retrieved(crate::text::copy_string(t)),
                None => MatchBasis::Nothing,
            },
        },
    }
}

// ---------------------------------------------------------------------------
// Hints
// ---------------------------------------------------------------------------

/// The hint kind and source label an entry's kind gives.
pub open spec fn entry_hint_kind_spec(kind: StoryEntryKind) -> (HintKind, Seq<char>) {
    match kind {
        StoryEntryKind::Character => (HintKind::CharacterState, "人物"@),
        StoryEntryKind::Setting => (HintKind::WorldRule, "设定"@),
        StoryEntryKind::Foreshadow => (HintKind::OpenForeshadowing, "伏笔"@),
    }
}

/// The hint kind and source label for an entry of this kind.
pub fn entry_hint_kind(kind: StoryEntryKind) -> (r: (HintKind, &'static str))
    ensures
        r.0 == entry_hint_kind_spec(kind).0,
        r.1@ == entry_hint_kind_spec(kind).1,
{
    match kind {
        StoryEntryKind::Character => (HintKind::CharacterState, "人物"),
        StoryEntryKind::Setting => (HintKind::WorldRule, "设定"),
        StoryEntryKind::Foreshadow => (HintKind::OpenForeshadowing, "伏笔"),
    }
}

/// The summary a hint on an entry shows: its description, or a note that
/// the entry was designed ahead when it has none.
pub fn entry_hint_summary(entry: &StoryEntry) -> (r: String)
    ensures
        r@ == (if entry.summary@.len() == 0 {
            entry.title@ + " · 预先设定"@
        } else {
            entry.summary@
        }),
{
    if entry.summary.as_str().unicode_len() == 0 {
        let mut v = chars_of(entry.title.as_str());
        crate::text::append_str(&mut v, " · 预先设定");
        string_of(v.as_slice())
    } else {
        crate::text::copy_string(&entry.summary)
    }
}

/// The summary a hint on an open plot thread shows: its summary, or a note
/// that the foreshadowing is still unresolved.
pub fn thread_hint_summary(title: &str, summary: &str) -> (r: String)
    ensures
        r@ == (if summary@.len() == 0 {
            "伏笔「"@ + title@ + "」仍未兑现"@
        } else {
            summary@
        }),
{
    if summary.unicode_len() == 0 {
        let mut v = chars_of("伏笔「");
        crate::text::append_str(&mut v, title);
        crate::text::append_str(&mut v, "」仍未兑现");
        string_of(v.as_slice())
    } else {
        string_of(chars_of(summary).as_slice())
    }
}

/// How many hints a query may get: its limit kept between one and six.
pub fn hint_limit(limit: usize) -> (r: usize)
    ensures
        r == (if limit < 1 {
            1
        } else if limit > 6 {
            6
        } else {
            limit
        }),
{
    if limit < 1 {
        1
    } else if limit > 6 {
        6
    } else {
        limit
    }
}

/// The identifier of a hint: `hint-`, the query generation, `-`, the title.
pub fn hint_id(generation: u64, title: &str) -> (r: String)
    ensures
        r@ == "hint-"@ + crate::text::decimal(generation as nat) + "-"@ + title@,
{
    let mut v = chars_of("hint-");
    let d = crate::text::decimal_chars(generation);
    append_chars(&mut v, d.as_slice());
    crate::text::append_str(&mut v, "-");
    crate::text::append_str(&mut v, title);
    string_of(v.as_slice())
}

/// The order of hint kinds among hints of equal score: characters, then
/// world rules, then foreshadowing, then the rest.
pub fn kind_rank(kind: HintKind) -> (r: u8)
    ensures
        r == match kind {
            HintKind::CharacterState => 0u8,
            HintKind::WorldRule => 1u8,
            HintKind::OpenForeshadowing => 2u8,
            _ => 9u8,
        },
{
    match kind {
        HintKind::CharacterState => 0,
        HintKind::WorldRule => 1,
        HintKind::OpenForeshadowing => 2,
        _ => 9,
    }
}

/// The actions every hint offers, in order.
pub fn hint_actions() -> (r: Vec<HintAction>)
    ensures
        r@ == seq![
            HintAction::ExpandSource,
            HintAction::Pin,
            HintAction::Snooze,
            HintAction::Ignore,
            HintAction::MarkWrong,
        ],
{
    let mut r: Vec<HintAction> = Vec::new();
    r.push(HintAction::ExpandSource);
    r.push(HintAction::Pin);
    r.push(HintAction::Snooze);
    r.push(HintAction::Ignore);
    r.push(HintAction::MarkWrong);
    assert(r@ =~= seq![
        HintAction::ExpandSource,
        HintAction::Pin,
        HintAction::Snooze,
        HintAction::Ignore,
        HintAction::MarkWrong,
    ]);
    r
}

/// How a canon entity's name shows in the nearby text.
#[derive(Debug, Clone, Copy, PartialEq, Eq, Structural)]
pub enum NameMatch {
    /// Its canonical name occurs.
    Name,
    /// Not its name but one of its aliases occurs.
    Alias,
    /// Neither occurs.
    Absent,
}

/// How a canon entity's name shows in the nearby text: the canonical name
/// first, then any alias.
pub fn name_match(nearby: &str, canonical: &str, aliases: &Vec<String>) -> (r: NameMatch)
    ensures
        r == (if contains_seq(nearby@, canonical@) {
            NameMatch::Name
        } else if exists|i: int|
            0 <= i < aliases@.len() && contains_seq(nearby@, #[trigger] aliases@[i]@) {
            NameMatch::Alias
        } else {
            NameMatch::Absent
        }),
{
    let text = chars_of(nearby);
    if contains_chars(text.as_slice(), chars_of(canonical).as_slice()) {
        return NameMatch::Name;
    }
    let mut i: usize = 0;
    while i < aliases.len()
        invariant
            i <= aliases.len(),
            text@ == nearby@,
            !contains_seq(nearby@, canonical@),
            forall|k: int| 0 <= k < i ==> !contains_seq(nearby@, #[trigger] aliases@[k]@),
        decreases aliases.len() - i,
    {
        if contains_chars(text.as_slice(), chars_of(aliases[i].as_str()).as_slice()) {
            assert(contains_seq(nearby@, aliases@[i as int]@));
            return NameMatch::Alias;
        }
        i += 1;
    }
    NameMatch::Absent
}

/// Whether a canon fact bears on the nearby text: its predicate or its
/// value occurs there.
pub fn fact_relevant(nearby: &str, predicate: &str, value: &str) -> (r: bool)
    ensures
        r == (contains_seq(nearby@, predicate@) || contains_seq(nearby@, value@)),
{
    let text = chars_of(nearby);
    contains_chars(text.as_slice(), chars_of(predicate).as_slice()) || contains_chars(
        text.as_slice(),
        chars_of(value).as_slice(),
    )
}

// ---------------------------------------------------------------------------
// Laws of candidate terms
// ---------------------------------------------------------------------------

/// Whether a term may stand in a list: two or more characters, not a stop
/// word, not excluded.
pub open spec fn term_ok(t: Seq<char>, ex: Option<(Seq<char>, Seq<Seq<char>>)>) -> bool {
    t.len() >= 2 && !is_stop_word(t) && !excluded(ex, t)
}

/// Whether every term of the list may stand there and none occurs twice.
pub open spec fn clean_terms(s: Seq<Seq<char>>, ex: Option<(Seq<char>, Seq<Seq<char>>)>) -> bool {
    &&& forall|i: int| 0 <= i < s.len() ==> term_ok(#[trigger] s[i], ex)
    &&& forall|i: int, j: int| 0 <= i < j < s.len() ==> #[trigger] s[i] != #[trigger] s[j]
}

proof fn lemma_accept_all_clean(
    tokens: Seq<Seq<char>>,
    terms: Seq<Seq<char>>,
    ex: Option<(Seq<char>, Seq<Seq<char>>)>,
)
    requires
        clean_terms(tokens, ex),
    ensures
        clean_terms(accept_all(tokens, terms, ex), ex),
    decreases terms.len(),
{
    if terms.len() > 0 {
        lemma_accept_all_clean(tokens, terms.drop_last(), ex);
        let t = accept_all(tokens, terms.drop_last(), ex);
        let x = terms.last();
        if !(x.len() < 2 || is_stop_word(x) || excluded(ex, x) || t.contains(x)) {
            let u = t.push(x);
            assert forall|i: int, j: int| 0 <= i < j < u.len() implies #[trigger] u[i] != #[trigger] u[j] by {
                if j == t.len() {
                    assert(u[i] == t[i]);
                    if u[i] == x {
                        assert(t.contains(x));
                    }
                } else {
                    assert(u[i] == t[i] && u[j] == t[j]);
                }
            }
            assert forall|i: int| 0 <= i < u.len() implies term_ok(#[trigger] u[i], ex) by {
                if i < t.len() {
                    assert(u[i] == t[i]);
                }
            }
        }
    }
}

proof fn lemma_chunks_clean(
    chs: Seq<Seq<char>>,
    query: bool,
    ex: Option<(Seq<char>, Seq<Seq<char>>)>,
)
    ensures
        clean_terms(tokens_of_chunks(seq![], chs, query, ex), ex),
    decreases chs.len(),
{
    if chs.len() > 0 {
        lemma_chunks_clean(chs.drop_last(), query, ex);
        lemma_accept_all_clean(
            tokens_of_chunks(seq![], chs.drop_last(), query, ex),
            if query {
                query_chunk_terms(chs.last())
            } else {
                summary_chunk_terms(chs.last())
            },
            ex,
        );
    }
}

proof fn lemma_sorted_by_length_members(s: Seq<Seq<char>>)
    ensures
        sorted_by_length(s).len() == s.len(),
        forall|i: int|
            0 <= i < sorted_by_length(s).len() ==> s.contains(#[trigger] sorted_by_length(s)[i]),
    decreases s.len(),
{
    if s.len() > 0 {
        lemma_sorted_by_length_members(s.drop_last());
        let t = sorted_by_length(s.drop_last());
        let x = s.last();
        let p = length_insertion_point(t, x.len());
        lemma_length_insertion_point_bounds(t, x.len());
        let u = t.insert(p, x);
        assert forall|i: int| 0 <= i < u.len() implies s.contains(#[trigger] u[i]) by {
            if i < p {
                assert(u[i] == t[i]);
                let k = choose|k: int| 0 <= k < s.drop_last().len() && s.drop_last()[k] == t[i];
                assert(s[k] == t[i]);
            } else if i == p {
                assert(s[s.len() - 1] == x);
            } else {
                assert(u[i] == t[i - 1]);
                let k = choose|k: int| 0 <= k < s.drop_last().len() && s.drop_last()[k] == t[i - 1];
                assert(s[k] == t[i - 1]);
            }
        }
    }
}

proof fn lemma_length_insertion_point_bounds(s: Seq<Seq<char>>, n: nat)
    ensures
        0 <= length_insertion_point(s, n) <= s.len(),
    decreases s.len(),
{
    if s.len() > 0 {
        lemma_length_insertion_point_bounds(s.drop_first(), n);
    }
}

proof fn lemma_dedup_members(s: Seq<Seq<char>>)
    ensures
        forall|i: int|
            0 <= i < dedup_adjacent(s).len() ==> s.contains(#[trigger] dedup_adjacent(s)[i]),
    decreases s.len(),
{
    if s.len() > 0 {
        lemma_dedup_members(s.drop_last());
        let d = dedup_adjacent(s.drop_last());
        assert forall|i: int| 0 <= i < dedup_adjacent(s).len() implies s.contains(#[trigger] dedup_adjacent(s)[i]) by {
            if i < d.len() {
                assert(dedup_adjacent(s)[i] == d[i]);
                let k = choose|k: int| 0 <= k < s.drop_last().len() && s.drop_last()[k] == d[i];
                assert(s[k] == d[i]);
            } else {
                assert(s[s.len() - 1] == dedup_adjacent(s)[i]);
            }
        }
    }
}

/// The keywords of a description are at least two characters long, never
/// stop words, never the entry's title or an alias, and never part of the
/// title.
pub proof fn lemma_keywords_clean(summary: Seq<char>, title: Seq<char>, aliases: Seq<Seq<char>>)
    ensures
        forall|i: int|
            0 <= i < summary_keyword_terms(summary, title, aliases).len() ==> {
                let k = #[trigger] summary_keyword_terms(summary, title, aliases)[i];
                &&& k.len() >= 2
                &&& !is_stop_word(k)
                &&& k != title
                &&& !aliases.contains(k)
                &&& !contains_seq(title, k)
            },
{
    reveal(summary_keyword_terms);
    let ex = Some((title, aliases));
    let raw = tokens_of_chunks(seq![], chunks(summary), false, ex);
    lemma_chunks_clean(chunks(summary), false, ex);
    lemma_sorted_by_length_members(raw);
    lemma_dedup_members(sorted_by_length(raw));
    let kw = summary_keyword_terms(summary, title, aliases);
    assert forall|i: int| 0 <= i < kw.len() implies term_ok(#[trigger] kw[i], ex) by {
        assert(sorted_by_length(raw).contains(kw[i]));
        let a = choose|a: int| 0 <= a < sorted_by_length(raw).len() && sorted_by_length(raw)[a] == kw[i];
        assert(raw.contains(sorted_by_length(raw)[a]));
        let b = choose|b: int| 0 <= b < raw.len() && raw[b] == kw[i];
        assert(term_ok(raw[b], ex));
    }
}

/// The candidate terms of a query are at least two characters long, never
/// stop words, and none occurs twice.
pub proof fn lemma_query_terms_clean(text: Seq<char>)
    ensures
        clean_terms(query_terms(text), None),
{
    lemma_chunks_clean(chunks(text), true, None);
}
} // verus!
