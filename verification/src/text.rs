//! Words and lines: what counts as white space, what is left of a word when
//! the white space around it is taken away, and the lines of a text.

use vstd::prelude::*;
use vstd::string::StrSliceExecFns;

verus! {

/// `String::push` puts one character at the end of the string.
pub assume_specification[ String::push ](s: &mut String, ch: char)
    ensures
        final(s)@ == old(s)@.push(ch),
;

/// The views of the strings of `v`, in the same order.
pub open spec fn texts(v: Seq<String>) -> Seq<Seq<char>> {
    v.map_values(|s: String| s@)
}

/// The view of a string that may be missing.
pub open spec fn text_of(found: Option<String>) -> Option<Seq<char>> {
    match found {
        Some(s) => Some(s@),
        None => None,
    }
}

/// White space is a character that Unicode marks as `White_Space`: the
/// controls from tab to carriage return, the space, next line, the no-break
/// space, the Ogham space mark, the spaces from en quad to hair space, the
/// line and paragraph separators, the narrow no-break space, the medium
/// mathematical space and the ideographic space.
pub open spec fn is_whitespace(c: char) -> bool {
    let u = c as u32;
    ||| 0x09 <= u <= 0x0D
    ||| u == 0x20
    ||| u == 0x85
    ||| u == 0xA0
    ||| u == 0x1680
    ||| 0x2000 <= u <= 0x200A
    ||| u == 0x2028
    ||| u == 0x2029
    ||| u == 0x202F
    ||| u == 0x205F
    ||| u == 0x3000
}

/// Tells whether `c` is white space.
pub fn is_whitespace_char(c: char) -> (b: bool)
    ensures
        b == is_whitespace(c),
{
    let u: u32 = c as u32;
    (0x09 <= u && u <= 0x0D) || u == 0x20 || u == 0x85 || u == 0xA0 || u == 0x1680 || (0x2000 <= u
        && u <= 0x200A) || u == 0x2028 || u == 0x2029 || u == 0x202F || u == 0x205F || u == 0x3000
}

/// `s` without the white space at its front.
pub open spec fn trim_start(s: Seq<char>) -> Seq<char>
    decreases s.len(),
{
    if s.len() > 0 && is_whitespace(s.first()) {
        trim_start(s.drop_first())
    } else {
        s
    }
}

/// `s` without the white space at its end.
pub open spec fn trim_end(s: Seq<char>) -> Seq<char>
    decreases s.len(),
{
    if s.len() > 0 && is_whitespace(s.last()) {
        trim_end(s.drop_last())
    } else {
        s
    }
}

/// `s` without the white space at its front and at its end. White space
/// inside the word stays.
pub open spec fn trim(s: Seq<char>) -> Seq<char> {
    trim_end(trim_start(s))
}

/// Where the first `a` characters of `s` are white space and the next one,
/// if there is one, is not, `trim_start` drops exactly those `a`.
proof fn lemma_trim_start_is_skip(s: Seq<char>, a: int)
    requires
        0 <= a <= s.len(),
        forall|j: int| 0 <= j < a ==> is_whitespace(#[trigger] s[j]),
        a < s.len() ==> !is_whitespace(s[a]),
    ensures
        trim_start(s) == s.skip(a),
    decreases a,
{
    if a == 0 {
        assert(s.skip(0) =~= s);
    } else {
        let rest = s.drop_first();
        assert forall|j: int| 0 <= j < a - 1 implies is_whitespace(#[trigger] rest[j]) by {
            assert(rest[j] == s[j + 1]);
        }
        lemma_trim_start_is_skip(rest, a - 1);
        assert(rest.skip(a - 1) =~= s.skip(a));
    }
}

/// Where the characters of `s` from `b` on are white space and the one
/// before `b`, if there is one, is not, `trim_end` keeps exactly the first
/// `b`.
proof fn lemma_trim_end_is_take(s: Seq<char>, b: int)
    requires
        0 <= b <= s.len(),
        forall|j: int| b <= j < s.len() ==> is_whitespace(#[trigger] s[j]),
        b > 0 ==> !is_whitespace(s[b - 1]),
    ensures
        trim_end(s) == s.take(b),
    decreases s.len() - b,
{
    if b == s.len() {
        assert(s.take(b) =~= s);
    } else {
        let rest = s.drop_last();
        lemma_trim_end_is_take(rest, b);
        assert(rest.take(b) =~= s.take(b));
    }
}

/// A sequence of characters that are all white space.
pub open spec fn is_blank(s: Seq<char>) -> bool {
    forall|i: int| 0 <= i < s.len() ==> is_whitespace(#[trigger] s[i])
}

/// White space before a text is taken away with the white space at the
/// front of the text.
proof fn lemma_trim_start_of_blank_front(front: Seq<char>, s: Seq<char>)
    requires
        is_blank(front),
    ensures
        trim_start(front + s) == trim_start(s),
    decreases front.len(),
{
    if front.len() == 0 {
        assert(front + s =~= s);
    } else {
        assert((front + s).first() == front[0]);
        assert((front + s).drop_first() =~= front.drop_first() + s);
        assert forall|i: int| 0 <= i < front.drop_first().len() implies is_whitespace(
            #[trigger] front.drop_first()[i],
        ) by {
            assert(front.drop_first()[i] == front[i + 1]);
        }
        lemma_trim_start_of_blank_front(front.drop_first(), s);
    }
}

/// White space after a text is taken away with the white space at the end
/// of the text.
proof fn lemma_trim_end_of_blank_back(s: Seq<char>, back: Seq<char>)
    requires
        is_blank(back),
    ensures
        trim_end(s + back) == trim_end(s),
    decreases back.len(),
{
    if back.len() == 0 {
        assert(s + back =~= s);
    } else {
        assert((s + back).last() == back.last());
        assert((s + back).drop_last() =~= s + back.drop_last());
        assert forall|i: int| 0 <= i < back.drop_last().len() implies is_whitespace(
            #[trigger] back.drop_last()[i],
        ) by {
            assert(back.drop_last()[i] == back[i]);
        }
        lemma_trim_end_of_blank_back(s, back.drop_last());
    }
}

/// White space after a text stays when the front of the text is trimmed,
/// unless the text itself is nothing but white space.
proof fn lemma_trim_start_before_blank_back(s: Seq<char>, back: Seq<char>)
    requires
        is_blank(back),
    ensures
        trim_start(s + back) == if trim_start(s).len() > 0 {
            trim_start(s) + back
        } else {
            Seq::<char>::empty()
        },
    decreases s.len(),
{
    if s.len() == 0 {
        assert(s + back =~= back + s);
        lemma_trim_start_of_blank_front(back, s);
    } else if is_whitespace(s.first()) {
        assert((s + back).first() == s.first());
        assert((s + back).drop_first() =~= s.drop_first() + back);
        lemma_trim_start_before_blank_back(s.drop_first(), back);
    } else {
        assert((s + back).first() == s.first());
    }
}

/// What `trim_start` leaves does not begin with white space, and what
/// `trim_end` leaves does not end with it and is the front part of what it
/// was given.
proof fn lemma_trim_ends(s: Seq<char>)
    ensures
        trim_start(s).len() > 0 ==> !is_whitespace(trim_start(s).first()),
        trim_end(s).len() > 0 ==> !is_whitespace(trim_end(s).last()),
        trim_end(s).len() <= s.len(),
        trim_end(s) == s.take(trim_end(s).len() as int),
    decreases s.len(),
{
    if s.len() > 0 {
        lemma_trim_ends(s.drop_first());
        lemma_trim_ends(s.drop_last());
        if is_whitespace(s.last()) {
            let n = trim_end(s).len() as int;
            assert(s.drop_last().take(n) =~= s.take(n));
        } else {
            assert(s.take(s.len() as int) =~= s);
        }
    } else {
        assert(s.take(0) =~= s);
    }
}

/// White space around a word makes no difference: a word between any white
/// space is trimmed to what the word alone is trimmed to.
pub proof fn lemma_trim_ignores_padding(front: Seq<char>, word: Seq<char>, back: Seq<char>)
    requires
        is_blank(front),
        is_blank(back),
    ensures
        trim(front + word + back) == trim(word),
{
    assert(front + word + back =~= front + (word + back));
    lemma_trim_start_of_blank_front(front, word + back);
    lemma_trim_start_before_blank_back(word, back);
    if trim_start(word).len() > 0 {
        lemma_trim_end_of_blank_back(trim_start(word), back);
    }
}

/// Trimming a second time changes nothing.
pub proof fn lemma_trim_twice(s: Seq<char>)
    ensures
        trim(trim(s)) == trim(s),
{
    let once = trim(s);
    lemma_trim_ends(s);
    lemma_trim_ends(trim_start(s));
    if once.len() > 0 {
        assert(once.first() == trim_start(s).first());
    }
}

/// The part of `s` between the white space at its front and the white space
/// at its end.
pub fn trim_str(s: &str) -> (t: &str)
    ensures
        t@ == trim(s@),
{
    broadcast use vstd::string::group_string_axioms;

    let n: usize = s.unicode_len();
    let mut start: usize = n;
    let mut end: usize = n;
    let mut seen = false;
    let mut i: usize = 0;
    for c in it: s.chars()
        invariant
            it.seq() == s@,
            n == s@.len(),
            i == it.index(),
            i <= n,
            !seen ==> start == n && end == n,
            !seen ==> forall|j: int| 0 <= j < i ==> is_whitespace(#[trigger] s@[j]),
            seen ==> start < end <= i,
            seen ==> !is_whitespace(s@[start as int]) && !is_whitespace(s@[end - 1]),
            seen ==> forall|j: int| 0 <= j < start ==> is_whitespace(#[trigger] s@[j]),
            seen ==> forall|j: int| end <= j < i ==> is_whitespace(#[trigger] s@[j]),
    {
        if !is_whitespace_char(c) {
            if !seen {
                start = i;
                seen = true;
            }
            end = i + 1;
        }
        i = i + 1;
    }
    proof {
        let rest = s@.skip(start as int);
        lemma_trim_start_is_skip(s@, start as int);
        assert forall|j: int| end - start <= j < rest.len() implies is_whitespace(
            #[trigger] rest[j],
        ) by {
            assert(rest[j] == s@[j + start]);
        }
        lemma_trim_end_is_take(rest, end - start);
        assert(rest.take(end - start) =~= s@.subrange(start as int, end as int));
    }
    s.substring_char(start, end)
}

/// The pieces into which the line feeds cut `s`. A text with `n` line feeds
/// has `n + 1` pieces, none of which holds a line feed; the last one is what
/// follows the last line feed, and is empty where nothing does.
pub open spec fn split_lines(s: Seq<char>) -> Seq<Seq<char>>
    decreases s.len(),
{
    if s.len() == 0 {
        seq![Seq::<char>::empty()]
    } else {
        let before = split_lines(s.drop_last());
        if s.last() == '\n' {
            before.push(Seq::<char>::empty())
        } else {
            before.drop_last().push(before.last().push(s.last()))
        }
    }
}

/// The lines of `s` as a line reader hands them out: every piece that a
/// line feed ends, and what follows the last line feed unless it is empty.
/// An empty text has no line.
pub open spec fn lines(s: Seq<char>) -> Seq<Seq<char>> {
    let pieces = split_lines(s);
    if pieces.last().len() == 0 {
        pieces.drop_last()
    } else {
        pieces
    }
}

/// The words of a wordlist: its lines, each without the white space around
/// it.
pub open spec fn words(s: Seq<char>) -> Seq<Seq<char>> {
    lines(s).map_values(|line: Seq<char>| trim(line))
}

/// A text always has a last piece.
pub proof fn lemma_split_lines_nonempty(s: Seq<char>)
    ensures
        split_lines(s).len() >= 1,
    decreases s.len(),
{
    if s.len() > 0 {
        lemma_split_lines_nonempty(s.drop_last());
    }
}

/// The pieces with a line feed between each two of them.
pub open spec fn joined(pieces: Seq<Seq<char>>) -> Seq<char>
    decreases pieces.len(),
{
    if pieces.len() == 0 {
        Seq::empty()
    } else if pieces.len() == 1 {
        pieces[0]
    } else {
        joined(pieces.drop_last()).push('\n') + pieces.last()
    }
}

/// The pieces of a text are the text cut at its line feeds and at nothing
/// else: no piece holds a line feed, and the pieces with line feeds put
/// back between them are the text.
pub proof fn lemma_split_lines_cuts_at_line_feeds(s: Seq<char>)
    ensures
        forall|k: int| 0 <= k < split_lines(s).len() ==> is_single_line(#[trigger] split_lines(s)[k]),
        joined(split_lines(s)) == s,
    decreases s.len(),
{
    if s.len() == 0 {
        assert(joined(split_lines(s)) =~= s);
    } else {
        let shorter = s.drop_last();
        let before = split_lines(shorter);
        lemma_split_lines_nonempty(shorter);
        lemma_split_lines_cuts_at_line_feeds(shorter);
        assert(shorter.push(s.last()) =~= s);
        if s.last() == '\n' {
            let pieces = before.push(Seq::<char>::empty());
            assert(pieces.drop_last() =~= before);
            assert(joined(pieces) =~= s);
        } else {
            let last = before.last().push(s.last());
            let pieces = before.drop_last().push(last);
            assert(pieces.drop_last() =~= before.drop_last());
            assert(is_single_line(before[before.len() - 1]));
            assert forall|k: int| 0 <= k < pieces.len() implies is_single_line(
                #[trigger] pieces[k],
            ) by {
                if k < pieces.len() - 1 {
                    assert(pieces[k] == before[k]);
                }
            }
            if before.len() == 1 {
                assert(joined(pieces) =~= s);
            } else {
                assert(joined(pieces) =~= joined(before).push(s.last()));
            }
        }
    }
}

/// The pieces that a line feed has ended after `k` characters stay as they
/// are when the text goes on: reading on adds pieces and changes none but
/// the last.
proof fn lemma_ended_pieces_stay(s: Seq<char>, k: int)
    requires
        0 <= k <= s.len(),
    ensures
        split_lines(s.take(k)).len() <= split_lines(s).len(),
        split_lines(s.take(k)).drop_last() == split_lines(s).drop_last().take(
            split_lines(s.take(k)).len() - 1,
        ),
    decreases s.len() - k,
{
    lemma_split_lines_nonempty(s);
    lemma_split_lines_nonempty(s.take(k));
    if k == s.len() {
        assert(s.take(k) =~= s);
        assert(split_lines(s).drop_last() =~= split_lines(s).drop_last().take(
            split_lines(s).len() - 1,
        ));
    } else {
        let shorter = s.drop_last();
        assert(shorter.take(k) =~= s.take(k));
        lemma_split_lines_nonempty(shorter);
        lemma_ended_pieces_stay(shorter, k);
        let n = split_lines(s.take(k)).len() - 1;
        assert(split_lines(shorter).drop_last().take(n) =~= split_lines(s).drop_last().take(n));
    }
}

/// The pieces that a line feed has ended after `k` characters are the first
/// lines of the whole text.
pub proof fn lemma_lines_of_prefix(s: Seq<char>, k: int)
    requires
        0 <= k <= s.len(),
    ensures
        1 <= split_lines(s.take(k)).len() <= lines(s).len() + 1,
        split_lines(s.take(k)).drop_last() == lines(s).take(split_lines(s.take(k)).len() - 1),
{
    lemma_split_lines_nonempty(s);
    lemma_split_lines_nonempty(s.take(k));
    lemma_ended_pieces_stay(s, k);
    let n = split_lines(s.take(k)).len() - 1;
    assert(split_lines(s).drop_last().take(n) =~= lines(s).take(n));
}

/// A text without a line feed.
pub open spec fn is_single_line(s: Seq<char>) -> bool {
    forall|i: int| 0 <= i < s.len() ==> #[trigger] s[i] != '\n'
}

/// A text without a line feed is one piece.
pub proof fn lemma_single_line_is_one_piece(s: Seq<char>)
    requires
        is_single_line(s),
    ensures
        split_lines(s) == seq![s],
    decreases s.len(),
{
    if s.len() == 0 {
        assert(s =~= Seq::<char>::empty());
    } else {
        let shorter = s.drop_last();
        assert forall|i: int| 0 <= i < shorter.len() implies #[trigger] shorter[i] != '\n' by {
            assert(shorter[i] == s[i]);
        }
        lemma_single_line_is_one_piece(shorter);
        assert(s.last() == s[s.len() - 1]);
        assert(shorter.push(s.last()) =~= s);
        assert(seq![shorter].drop_last().push(seq![shorter].last().push(s.last())) =~= seq![s]);
    }
}

/// A text without a line feed is the only line of the wordlist that holds
/// it and a line feed after it; it is also the only line of the wordlist
/// that holds nothing else, unless it is empty: an empty wordlist has no
/// line.
pub proof fn lemma_lines_of_single_line(s: Seq<char>)
    requires
        is_single_line(s),
    ensures
        lines(s.push('\n')) == seq![s],
        s.len() > 0 ==> lines(s) == seq![s],
        s.len() == 0 ==> lines(s) == Seq::<Seq<char>>::empty(),
{
    lemma_single_line_is_one_piece(s);
    let ended = s.push('\n');
    assert(ended.drop_last() =~= s);
    assert(ended.last() == '\n');
    assert(seq![s].push(Seq::<char>::empty()).drop_last() =~= seq![s]);
    assert(seq![s].drop_last() =~= Seq::<Seq<char>>::empty());
}

/// Reading a line feed at position `i` ends the piece that was being read:
/// it is now one of the lines of the whole text, after those that ended
/// before it, and a new, empty piece begins.
pub proof fn lemma_line_ends(s: Seq<char>, i: int, ended: Seq<Seq<char>>, current: Seq<char>)
    requires
        0 <= i < s.len(),
        s[i] == '\n',
        split_lines(s.take(i)) == ended.push(current),
    ensures
        split_lines(s.take(i + 1)) == ended.push(current).push(Seq::<char>::empty()),
        ended.len() < lines(s).len(),
        lines(s).take(ended.len() as int + 1) == ended.push(current),
{
    assert(s.take(i + 1).drop_last() =~= s.take(i));
    assert(s.take(i + 1).last() == s[i]);
    lemma_lines_of_prefix(s, i + 1);
    assert(ended.push(current).push(Seq::<char>::empty()).drop_last() =~= ended.push(current));
}

/// Reading any other character at position `i` adds it to the piece that is
/// being read.
pub proof fn lemma_line_goes_on(s: Seq<char>, i: int, ended: Seq<Seq<char>>, current: Seq<char>)
    requires
        0 <= i < s.len(),
        s[i] != '\n',
        split_lines(s.take(i)) == ended.push(current),
    ensures
        split_lines(s.take(i + 1)) == ended.push(current.push(s[i])),
{
    assert(s.take(i + 1).drop_last() =~= s.take(i));
    assert(s.take(i + 1).last() == s[i]);
    assert(ended.push(current).drop_last() =~= ended);
}

/// At the end of the text the piece that was being read is the last line,
/// unless it is empty.
pub proof fn lemma_text_ends(s: Seq<char>, ended: Seq<Seq<char>>, current: Seq<char>)
    requires
        split_lines(s) == ended.push(current),
    ensures
        lines(s) == if current.len() == 0 {
            ended
        } else {
            ended.push(current)
        },
{
    assert(ended.push(current).drop_last() =~= ended);
}

/// The lines of `contents`, each in a string of its own.
pub fn read_lines(contents: &str) -> (out: Vec<String>)
    ensures
        texts(out@) == lines(contents@),
{
    broadcast use vstd::string::group_string_axioms;

    let mut out: Vec<String> = Vec::new();
    let mut current = String::new();
    assert(contents@.take(0) =~= Seq::<char>::empty());
    assert(texts(out@).push(current@) =~= split_lines(contents@.take(0)));
    for c in it: contents.chars()
        invariant
            it.seq() == contents@,
            split_lines(contents@.take(it.index() as int)) == texts(out@).push(current@),
    {
        let ghost ended = texts(out@);
        let ghost line = current@;
        if c == '\n' {
            proof {
                lemma_line_ends(contents@, it.index() as int, ended, line);
            }
            out.push(current);
            current = String::new();
            assert(texts(out@) =~= ended.push(line));
        } else {
            proof {
                lemma_line_goes_on(contents@, it.index() as int, ended, line);
            }
            current.push(c);
        }
    }
    assert(contents@.take(contents@.len() as int) =~= contents@);
    let ghost ended = texts(out@);
    let ghost rest = current@;
    proof {
        lemma_text_ends(contents@, ended, rest);
    }
    if !current.as_str().is_empty() {
        out.push(current);
        assert(texts(out@) =~= ended.push(rest));
    }
    out
}

} // verus!
