//! Character-level text normalization: lowercasing, punctuation stripping,
//! whitespace handling, and splitting a line into candidate tokens.
//!
//! Only ASCII characters are given word or whitespace meaning; every other
//! character counts as punctuation and is stripped or turned into a space.

use vstd::prelude::*;

verus! {

/// A word character: ASCII letter, ASCII digit, or underscore.
pub open spec fn is_word_char(c: char) -> bool {
    ('a' <= c && c <= 'z') || ('A' <= c && c <= 'Z') || ('0' <= c && c <= '9') || c == '_'
}

/// An ASCII whitespace character.
pub open spec fn is_space_char(c: char) -> bool {
    c == ' ' || c == '\t' || c == '\n' || c == '\r' || c == '\u{b}' || c == '\u{c}'
}

/// Punctuation: anything that is neither a word character nor whitespace.
pub open spec fn is_punct_char(c: char) -> bool {
    !is_word_char(c) && !is_space_char(c)
}

/// The lowercase counterpart of an ASCII letter; other characters unchanged.
pub open spec fn to_lower(c: char) -> char {
    if 'A' <= c && c <= 'Z' {
        (((c as u8) + 32) as char)
    } else {
        c
    }
}

pub fn word_char(c: char) -> (r: bool)
    ensures
        r == is_word_char(c),
{
    ('a' <= c && c <= 'z') || ('A' <= c && c <= 'Z') || ('0' <= c && c <= '9') || c == '_'
}

pub fn space_char(c: char) -> (r: bool)
    ensures
        r == is_space_char(c),
{
    c == ' ' || c == '\t' || c == '\n' || c == '\r' || c == '\u{b}' || c == '\u{c}'
}

pub fn punct_char(c: char) -> (r: bool)
    ensures
        r == is_punct_char(c),
{
    !word_char(c) && !space_char(c)
}

pub fn lower_char(c: char) -> (r: char)
    ensures
        r == to_lower(c),
{
    if 'A' <= c && c <= 'Z' {
        ((c as u8) + 32) as char
    } else {
        c
    }
}

/// Lowercasing of a whole sequence, when enabled.
pub open spec fn lower_seq(s: Seq<char>, enabled: bool) -> Seq<char> {
    if enabled {
        s.map_values(|c: char| to_lower(c))
    } else {
        s
    }
}

/// An apostrophe directly before a word character becomes a space,
/// so that contractions split into separate tokens.
/// Describes the suffix of the result produced from position `i` on.
pub open spec fn contractions_from(s: Seq<char>, i: int) -> Seq<char>
    decreases s.len() - i,
{
    if i < 0 || i >= s.len() {
        Seq::empty()
    } else if s[i] == '\'' && i + 1 < s.len() && is_word_char(s[i + 1]) {
        seq![' '] + contractions_from(s, i + 1)
    } else {
        seq![s[i]] + contractions_from(s, i + 1)
    }
}

pub open spec fn strip_contractions_spec(s: Seq<char>) -> Seq<char> {
    contractions_from(s, 0)
}

/// Punctuation at a word boundary is dropped: a punctuation character is
/// removed unless a word character follows it directly.
pub open spec fn trailing_punct_from(s: Seq<char>, i: int) -> Seq<char>
    decreases s.len() - i,
{
    if i < 0 || i >= s.len() {
        Seq::empty()
    } else if is_punct_char(s[i]) && !(i + 1 < s.len() && is_word_char(s[i + 1])) {
        trailing_punct_from(s, i + 1)
    } else {
        seq![s[i]] + trailing_punct_from(s, i + 1)
    }
}

pub open spec fn strip_trailing_punct_spec(s: Seq<char>) -> Seq<char> {
    trailing_punct_from(s, 0)
}

/// A next-line character or a literal `<br ` becomes a single space.
pub open spec fn breaks_from(s: Seq<char>, i: int) -> Seq<char>
    decreases s.len() - i,
{
    if i < 0 || i >= s.len() {
        Seq::empty()
    } else if s[i] == '<' && i + 3 < s.len() && s[i + 1] == 'b' && s[i + 2] == 'r' && s[i + 3]
        == ' ' {
        seq![' '] + breaks_from(s, i + 4)
    } else if s[i] == '\u{85}' {
        seq![' '] + breaks_from(s, i + 1)
    } else {
        seq![s[i]] + breaks_from(s, i + 1)
    }
}

pub open spec fn strip_breaks_spec(s: Seq<char>) -> Seq<char> {
    breaks_from(s, 0)
}

/// A run of two or more whitespace characters collapses to one space.
pub open spec fn collapse_ws_from(s: Seq<char>, i: int) -> Seq<char>
    decreases s.len() - i,
{
    if i < 0 || i >= s.len() {
        Seq::empty()
    } else if is_space_char(s[i]) && i > 0 && is_space_char(s[i - 1]) {
        collapse_ws_from(s, i + 1)
    } else if is_space_char(s[i]) && i + 1 < s.len() && is_space_char(s[i + 1]) {
        seq![' '] + collapse_ws_from(s, i + 1)
    } else {
        seq![s[i]] + collapse_ws_from(s, i + 1)
    }
}

pub open spec fn collapse_ws_spec(s: Seq<char>) -> Seq<char> {
    collapse_ws_from(s, 0)
}

/// Punctuation other than an apostrophe, standing directly before a word
/// character, becomes a space so that the two sides split apart.
pub open spec fn inner_punct_from(s: Seq<char>, i: int) -> Seq<char>
    decreases s.len() - i,
{
    if i < 0 || i >= s.len() {
        Seq::empty()
    } else if is_punct_char(s[i]) && s[i] != '\'' && i + 1 < s.len() && is_word_char(s[i + 1]) {
        seq![' '] + inner_punct_from(s, i + 1)
    } else {
        seq![s[i]] + inner_punct_from(s, i + 1)
    }
}

pub open spec fn space_inner_punct_spec(s: Seq<char>) -> Seq<char> {
    inner_punct_from(s, 0)
}

/// The characters of a string, in order.
pub fn chars_of(s: &str) -> (v: Vec<char>)
    ensures
        v@ == s@,
{
    let n = s.unicode_len();
    let mut v: Vec<char> = Vec::new();
    for i in 0..n
        invariant
            n == s@.len(),
            v@ == s@.subrange(0, i as int),
    {
        v.push(s.get_char(i));
        assert(v@ =~= s@.subrange(0, i + 1 as int));
    }
    assert(v@ =~= s@);
    v
}

pub fn lower_chars(v: &Vec<char>, enabled: bool) -> (r: Vec<char>)
    ensures
        r@ == lower_seq(v@, enabled),
{
    if !enabled {
        return v.clone();
    }
    let n = v.len();
    let mut r: Vec<char> = Vec::new();
    for i in 0..n
        invariant
            n == v@.len(),
            r@ == v@.subrange(0, i as int).map_values(|c: char| to_lower(c)),
    {
        r.push(lower_char(v[i]));
        assert(r@ =~= v@.subrange(0, i + 1 as int).map_values(|c: char| to_lower(c)));
    }
    assert(v@.subrange(0, n as int) =~= v@);
    r
}

pub fn strip_contractions(v: &Vec<char>) -> (r: Vec<char>)
    ensures
        r@ == strip_contractions_spec(v@),
{
    let n = v.len();
    let mut r: Vec<char> = Vec::new();
    let mut i: usize = 0;
    while i < n
        invariant
            n == v@.len(),
            i <= n,
            r@ + contractions_from(v@, i as int) == contractions_from(v@, 0),
        decreases n - i,
    {
        let c = v[i];
        if c == '\'' && i + 1 < n && word_char(v[i + 1]) {
            r.push(' ');
        } else {
            r.push(c);
        }
        assert(r@ + contractions_from(v@, i + 1 as int) =~= contractions_from(v@, 0));
        i = i + 1;
    }
    assert(r@ =~= r@ + contractions_from(v@, n as int));
    r
}

pub fn strip_trailing_punct(v: &Vec<char>) -> (r: Vec<char>)
    ensures
        r@ == strip_trailing_punct_spec(v@),
{
    let n = v.len();
    let mut r: Vec<char> = Vec::new();
    let mut i: usize = 0;
    while i < n
        invariant
            n == v@.len(),
            i <= n,
            r@ + trailing_punct_from(v@, i as int) == trailing_punct_from(v@, 0),
        decreases n - i,
    {
        let c = v[i];
        if punct_char(c) && !(i + 1 < n && word_char(v[i + 1])) {
            // dropped
        } else {
            r.push(c);
        }
        assert(r@ + trailing_punct_from(v@, i + 1 as int) =~= trailing_punct_from(v@, 0));
        i = i + 1;
    }
    assert(r@ =~= r@ + trailing_punct_from(v@, n as int));
    r
}

pub fn strip_breaks(v: &Vec<char>) -> (r: Vec<char>)
    ensures
        r@ == strip_breaks_spec(v@),
{
    let n = v.len();
    let mut r: Vec<char> = Vec::new();
    let mut i: usize = 0;
    while i < n
        invariant
            n == v@.len(),
            i <= n,
            r@ + breaks_from(v@, i as int) == breaks_from(v@, 0),
        decreases n - i,
    {
        let c = v[i];
        if c == '<' && n - i > 3 && v[i + 1] == 'b' && v[i + 2] == 'r' && v[i + 3] == ' ' {
            r.push(' ');
            assert(r@ + breaks_from(v@, i + 4 as int) =~= breaks_from(v@, 0));
            i = i + 4;
        } else if c == '\u{85}' {
            r.push(' ');
            assert(r@ + breaks_from(v@, i + 1 as int) =~= breaks_from(v@, 0));
            i = i + 1;
        } else {
            r.push(c);
            assert(r@ + breaks_from(v@, i + 1 as int) =~= breaks_from(v@, 0));
            i = i + 1;
        }
    }
    assert(r@ =~= r@ + breaks_from(v@, n as int));
    r
}

pub fn collapse_ws(v: &Vec<char>) -> (r: Vec<char>)
    ensures
        r@ == collapse_ws_spec(v@),
{
    let n = v.len();
    let mut r: Vec<char> = Vec::new();
    let mut i: usize = 0;
    while i < n
        invariant
            n == v@.len(),
            i <= n,
            r@ + collapse_ws_from(v@, i as int) == collapse_ws_from(v@, 0),
        decreases n - i,
    {
        let c = v[i];
        if space_char(c) && i > 0 && space_char(v[i - 1]) {
            // dropped: part of a run already emitted as one space
        } else if space_char(c) && i + 1 < n && space_char(v[i + 1]) {
            r.push(' ');
        } else {
            r.push(c);
        }
        assert(r@ + collapse_ws_from(v@, i + 1 as int) =~= collapse_ws_from(v@, 0));
        i = i + 1;
    }
    assert(r@ =~= r@ + collapse_ws_from(v@, n as int));
    r
}

pub fn space_inner_punct(v: &Vec<char>) -> (r: Vec<char>)
    ensures
        r@ == space_inner_punct_spec(v@),
{
    let n = v.len();
    let mut r: Vec<char> = Vec::new();
    let mut i: usize = 0;
    while i < n
        invariant
            n == v@.len(),
            i <= n,
            r@ + inner_punct_from(v@, i as int) == inner_punct_from(v@, 0),
        decreases n - i,
    {
        let c = v[i];
        if punct_char(c) && c != '\'' && i + 1 < n && word_char(v[i + 1]) {
            r.push(' ');
        } else {
            r.push(c);
        }
        assert(r@ + inner_punct_from(v@, i + 1 as int) =~= inner_punct_from(v@, 0));
        i = i + 1;
    }
    assert(r@ =~= r@ + inner_punct_from(v@, n as int));
    r
}

/// Leading whitespace removed.
pub open spec fn trim_front_spec(s: Seq<char>) -> Seq<char>
    decreases s.len(),
{
    if s.len() > 0 && is_space_char(s[0]) {
        trim_front_spec(s.drop_first())
    } else {
        s
    }
}

/// Trailing whitespace removed.
pub open spec fn trim_back_spec(s: Seq<char>) -> Seq<char>
    decreases s.len(),
{
    if s.len() > 0 && is_space_char(s.last()) {
        trim_back_spec(s.drop_last())
    } else {
        s
    }
}

/// Leading and trailing whitespace removed.
pub open spec fn trim_spec(s: Seq<char>) -> Seq<char> {
    trim_back_spec(trim_front_spec(s))
}

pub fn trim_chars(v: &Vec<char>) -> (r: Vec<char>)
    ensures
        r@ == trim_spec(v@),
{
    let n = v.len();
    proof {
        assert(v@.subrange(0, n as int) =~= v@);
    }
    let mut start: usize = 0;
    while start < n && space_char(v[start])
        invariant
            n == v@.len(),
            start <= n,
            trim_front_spec(v@) == trim_front_spec(v@.subrange(start as int, n as int)),
        decreases n - start,
    {
        proof {
            assert(v@.subrange(start as int, n as int).drop_first() =~= v@.subrange(
                start + 1 as int,
                n as int,
            ));
        }
        start = start + 1;
    }
    proof {
        assert(v@.subrange(0, n as int) =~= v@);
        // the loop stopped: the remaining prefix view starts with a non-space
        assert(trim_front_spec(v@) == v@.subrange(start as int, n as int));
    }
    let mut end: usize = n;
    while end > start && space_char(v[end - 1])
        invariant
            start <= end <= n,
            n == v@.len(),
            trim_back_spec(v@.subrange(start as int, n as int)) == trim_back_spec(
                v@.subrange(start as int, end as int),
            ),
        decreases end,
    {
        proof {
            assert(v@.subrange(start as int, end as int).drop_last() =~= v@.subrange(
                start as int,
                end - 1 as int,
            ));
        }
        end = end - 1;
    }
    proof {
        assert(trim_back_spec(v@.subrange(start as int, end as int)) == v@.subrange(
            start as int,
            end as int,
        ));
    }
    let mut r: Vec<char> = Vec::new();
    let mut i: usize = start;
    while i < end
        invariant
            start <= i <= end <= n,
            n == v@.len(),
            r@ == v@.subrange(start as int, i as int),
        decreases end - i,
    {
        r.push(v[i]);
        assert(r@ =~= v@.subrange(start as int, i + 1 as int));
        i = i + 1;
    }
    r
}

/// The views of a vector of strings.
pub open spec fn str_views(ts: Seq<String>) -> Seq<Seq<char>> {
    ts.map_values(|t: String| t@)
}

/// Relies on `FromIterator<char> for String`: collecting characters yields
/// the string made of exactly those characters, in order.
#[verifier::external_body]
pub fn string_from_chars(v: &Vec<char>) -> (r: String)
    ensures
        r@ == v@,
{
    v.iter().collect()
}

/// Splitting on single spaces, empty pieces kept: the result always holds at
/// least one piece, and splitting the empty text gives one empty piece.
pub open spec fn split_spaces(s: Seq<char>) -> Seq<Seq<char>>
    decreases s.len(),
{
    if s.len() == 0 {
        seq![Seq::<char>::empty()]
    } else {
        let rest = split_spaces(s.drop_last());
        if s.last() == ' ' {
            rest + seq![Seq::<char>::empty()]
        } else {
            rest.drop_last() + seq![rest.last().push(s.last())]
        }
    }
}

pub proof fn lemma_split_spaces_len(s: Seq<char>)
    ensures
        split_spaces(s).len() >= 1,
    decreases s.len(),
{
    if s.len() > 0 {
        lemma_split_spaces_len(s.drop_last());
    }
}

pub fn split_line(v: &Vec<char>) -> (r: Vec<String>)
    ensures
        str_views(r@) == split_spaces(v@),
        r@.len() >= 1,
{
    let n = v.len();
    let mut out: Vec<String> = Vec::new();
    let mut cur: Vec<char> = Vec::new();
    for i in 0..n
        invariant
            n == v@.len(),
            str_views(out@) + seq![cur@] =~= split_spaces(v@.subrange(0, i as int)),
    {
        let c = v[i];
        proof {
            assert(v@.subrange(0, i + 1 as int).drop_last() =~= v@.subrange(0, i as int));
            assert(v@.subrange(0, i + 1 as int).last() == v@[i as int]);
        }
        if c == ' ' {
            let ghost prev_out = out@;
            let ghost prev_cur = cur@;
            out.push(string_from_chars(&cur));
            cur = Vec::new();
            proof {
                assert(str_views(out@) =~= str_views(prev_out) + seq![prev_cur]);
                assert(str_views(out@) + seq![cur@] =~= split_spaces(
                    v@.subrange(0, i + 1 as int),
                ));
            }
        } else {
            cur.push(c);
            proof {
                let full = split_spaces(v@.subrange(0, i + 1 as int));
                let prev = split_spaces(v@.subrange(0, i as int));
                assert(prev.drop_last() =~= str_views(out@));
                assert(str_views(out@) + seq![cur@] =~= full);
            }
        }
    }
    proof {
        assert(v@.subrange(0, n as int) =~= v@);
    }
    let ghost prev_out = out@;
    out.push(string_from_chars(&cur));
    proof {
        assert(str_views(out@) =~~= str_views(prev_out) + seq![cur@]);
        lemma_split_spaces_len(v@);
    }
    out
}

/// A piece of text with no space character in it.
pub open spec fn space_free(s: Seq<char>) -> bool {
    forall|j: int| 0 <= j < s.len() ==> s[j] != ' '
}

/// Splitting never puts a space inside a piece.
pub proof fn lemma_split_tokens_space_free(s: Seq<char>)
    ensures
        forall|i: int| 0 <= i < split_spaces(s).len() ==> space_free(#[trigger] split_spaces(s)[i]),
    decreases s.len(),
{
    if s.len() > 0 {
        lemma_split_tokens_space_free(s.drop_last());
        let rest = split_spaces(s.drop_last());
        lemma_split_spaces_len(s.drop_last());
        if s.last() == ' ' {
            assert forall|i: int| 0 <= i < split_spaces(s).len() implies space_free(
                #[trigger] split_spaces(s)[i],
            ) by {
                if i < rest.len() {
                    assert(split_spaces(s)[i] == rest[i]);
                }
            }
        } else {
            assert forall|i: int| 0 <= i < split_spaces(s).len() implies space_free(
                #[trigger] split_spaces(s)[i],
            ) by {
                if i < rest.len() - 1 {
                    assert(split_spaces(s)[i] == rest[i]);
                } else {
                    assert(split_spaces(s)[i] == rest.last().push(s.last()));
                    assert(space_free(rest[rest.len() - 1]));
                    assert forall|j: int|
                        0 <= j < rest.last().push(s.last()).len() implies rest.last().push(
                        s.last(),
                    )[j] != ' ' by {
                        if j < rest.last().len() {
                            assert(rest.last().push(s.last())[j] == rest.last()[j]);
                        }
                    }
                }
            }
        }
    }
}

/// Splitting a space-free text gives that text as the one piece.
pub proof fn lemma_split_space_free(s: Seq<char>)
    requires
        space_free(s),
    ensures
        split_spaces(s) == seq![s],
    decreases s.len(),
{
    if s.len() == 0 {
        assert(split_spaces(s) =~~= seq![s]);
    } else {
        assert(space_free(s.drop_last()));
        lemma_split_space_free(s.drop_last());
        assert(s.last() != ' ');
        assert(split_spaces(s) =~~= seq![s.drop_last().push(s.last())]);
        assert(s.drop_last().push(s.last()) =~= s);
        assert(split_spaces(s) =~~= seq![s]);
    }
}

/// Appending a space and then a space-free piece appends one piece to the
/// split.
pub proof fn lemma_split_append_token(a: Seq<char>, b: Seq<char>)
    requires
        space_free(b),
    ensures
        split_spaces(a + seq![' '] + b) == split_spaces(a) + seq![b],
    decreases b.len(),
{
    if b.len() == 0 {
        let s = a + seq![' '] + b;
        assert(s =~= a + seq![' ']);
        assert(s.len() > 0 && s.last() == ' ');
        assert(s.drop_last() =~= a);
        assert(split_spaces(s) =~~= split_spaces(a) + seq![b]);
    } else {
        assert(space_free(b.drop_last()));
        lemma_split_append_token(a, b.drop_last());
        let s = a + seq![' '] + b;
        assert(s.last() == b.last() && b.last() != ' ');
        assert(s.drop_last() =~= a + seq![' '] + b.drop_last());
        let rest = split_spaces(a + seq![' '] + b.drop_last());
        lemma_split_spaces_len(a);
        assert(rest == split_spaces(a) + seq![b.drop_last()]);
        assert(rest.drop_last() =~= split_spaces(a));
        assert(rest.last() == b.drop_last());
        assert(rest.last().push(s.last()) =~= b);
        assert(split_spaces(s) =~~= split_spaces(a) + seq![b]);
    }
}

/// Joining pieces and splitting again gives the pieces back, as long as no
/// piece holds a space.
pub proof fn lemma_split_join(ts: Seq<Seq<char>>)
    requires
        ts.len() >= 1,
        forall|i: int| 0 <= i < ts.len() ==> space_free(#[trigger] ts[i]),
    ensures
        split_spaces(join_spaces(ts)) == ts,
    decreases ts.len(),
{
    if ts.len() == 1 {
        lemma_split_space_free(ts[0]);
        assert(split_spaces(join_spaces(ts)) =~~= ts);
    } else {
        assert(forall|i: int|
            0 <= i < ts.drop_last().len() ==> space_free(#[trigger] ts.drop_last()[i]));
        lemma_split_join(ts.drop_last());
        lemma_split_append_token(join_spaces(ts.drop_last()), ts.last());
        assert(split_spaces(join_spaces(ts)) =~~= ts.drop_last() + seq![ts.last()]);
        assert(ts.drop_last() + seq![ts.last()] =~~= ts);
    }
}

/// The pieces joined back with single spaces between them.
pub open spec fn join_spaces(ts: Seq<Seq<char>>) -> Seq<char>
    decreases ts.len(),
{
    if ts.len() == 0 {
        Seq::empty()
    } else if ts.len() == 1 {
        ts[0]
    } else {
        join_spaces(ts.drop_last()) + seq![' '] + ts.last()
    }
}

/// The word-splitting sanitizer: lowercasing, contraction splitting,
/// boundary punctuation removal, break markers and runs of whitespace turned
/// into single spaces, and remaining punctuation spaced off.
pub open spec fn sanitize_simple_spec(s: Seq<char>, lower: bool) -> Seq<char> {
    space_inner_punct_spec(
        collapse_ws_spec(
            strip_breaks_spec(strip_trailing_punct_spec(strip_contractions_spec(lower_seq(s, lower)))),
        ),
    )
}

/// The bag-of-words sanitizer: lowercasing, boundary punctuation removal,
/// remaining punctuation spaced off, ends trimmed. Apostrophes inside words
/// survive, so contractions stay one token.
pub open spec fn sanitize_bag_spec(s: Seq<char>, lower: bool) -> Seq<char> {
    trim_spec(space_inner_punct_spec(strip_trailing_punct_spec(lower_seq(s, lower))))
}

pub fn sanitize_simple_vec(v: &Vec<char>, lower: bool) -> (r: Vec<char>)
    ensures
        r@ == sanitize_simple_spec(v@, lower),
{
    let c1 = lower_chars(v, lower);
    let c2 = strip_contractions(&c1);
    let c3 = strip_trailing_punct(&c2);
    let c4 = strip_breaks(&c3);
    let c5 = collapse_ws(&c4);
    space_inner_punct(&c5)
}

pub fn sanitize_bag_chars(line: &str, lower: bool) -> (r: Vec<char>)
    ensures
        r@ == sanitize_bag_spec(line@, lower),
{
    let c0 = chars_of(line);
    let c1 = lower_chars(&c0, lower);
    let c2 = strip_trailing_punct(&c1);
    let c3 = space_inner_punct(&c2);
    trim_chars(&c3)
}

/// Character-for-character comparison of two string slices.
pub fn str_eq(a: &str, b: &str) -> (r: bool)
    ensures
        r == (a@ == b@),
{
    let na = a.unicode_len();
    let nb = b.unicode_len();
    if na != nb {
        return false;
    }
    for i in 0..na
        invariant
            na == a@.len(),
            nb == b@.len(),
            na == nb,
            forall|j: int| 0 <= j < i ==> a@[j] == b@[j],
    {
        if a.get_char(i) != b.get_char(i) {
            return false;
        }
    }
    proof {
        assert(a@ =~= b@);
    }
    true
}

} // verus!
