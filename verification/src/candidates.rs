//! The candidates that are tested, and which of them is found.
//!
//! A word of the wordlist gives the word itself as its first candidate,
//! then what the first rule derives from the word, then what the second
//! rule derives from it, and so on. Every rule is applied to the word as the
//! wordlist has it, never to what another rule has derived, and a candidate
//! that two rules derive is a candidate twice. A search finds the first
//! candidate, in this order, whose digest is the one looked for.

use crate::digest::digest_hex;
use crate::password_rules_attack::Rule;
use crate::text::{
    is_single_line, lemma_lines_of_single_line, lines, texts, trim, words,
};
use vstd::prelude::*;
use vstd::string::StringExecFns;

verus! {

/// What the rules derive from `word`: the variants of the first rule, then
/// those of the second, and so on.
pub open spec fn derived<R: Rule>(word: Seq<char>, rules: Seq<R>) -> Seq<Seq<char>>
    decreases rules.len(),
{
    if rules.len() == 0 {
        Seq::empty()
    } else {
        derived(word, rules.drop_last()) + rules.last().variants(word)
    }
}

/// The candidates that `word` gives under `rules`: the word first, then
/// what the rules derive from it.
pub open spec fn expand<R: Rule>(word: Seq<char>, rules: Seq<R>) -> Seq<Seq<char>> {
    seq![word] + derived(word, rules)
}

/// The candidates that a list of words gives under `rules`: those of the
/// first word, then those of the second, and so on.
pub open spec fn candidates<R: Rule>(list: Seq<Seq<char>>, rules: Seq<R>) -> Seq<Seq<char>>
    decreases list.len(),
{
    if list.len() == 0 {
        Seq::empty()
    } else {
        candidates(list.drop_last(), rules) + expand(list.last(), rules)
    }
}

/// Each line without the white space around it.
pub open spec fn trimmed(lines: Seq<Seq<char>>) -> Seq<Seq<char>> {
    lines.map_values(|line: Seq<char>| trim(line))
}

/// The first of `tested` whose digest is `target`, if there is one.
pub open spec fn first_match(target: Seq<char>, tested: Seq<Seq<char>>) -> Option<Seq<char>>
    decreases tested.len(),
{
    if tested.len() == 0 {
        None
    } else if digest_hex(tested.first()) == target {
        Some(tested.first())
    } else {
        first_match(target, tested.drop_first())
    }
}

/// What a search of the wordlist `contents` for `target` under `rules`
/// finds: the first candidate of its words whose digest is `target`.
pub open spec fn search<R: Rule>(target: Seq<char>, contents: Seq<char>, rules: Seq<R>) -> Option<
    Seq<char>,
> {
    first_match(target, candidates(words(contents), rules))
}

/// The rules of `a` followed by those of `b` derive what those of `a`
/// derive, followed by what those of `b` derive.
pub proof fn lemma_derived_concat<R: Rule>(word: Seq<char>, a: Seq<R>, b: Seq<R>)
    ensures
        derived(word, a + b) == derived(word, a) + derived(word, b),
    decreases b.len(),
{
    if b.len() == 0 {
        assert(a + b =~= a);
        assert(derived(word, a) + derived(word, b) =~= derived(word, a));
    } else {
        lemma_derived_concat(word, a, b.drop_last());
        assert((a + b).drop_last() =~= a + b.drop_last());
        assert((a + b).last() == b.last());
        assert(derived(word, a + b) =~= derived(word, a) + derived(word, b));
    }
}

/// The words of `a` followed by those of `b` give the candidates of `a`
/// followed by those of `b`.
pub proof fn lemma_candidates_concat<R: Rule>(a: Seq<Seq<char>>, b: Seq<Seq<char>>, rules: Seq<R>)
    ensures
        candidates(a + b, rules) == candidates(a, rules) + candidates(b, rules),
    decreases b.len(),
{
    if b.len() == 0 {
        assert(a + b =~= a);
        assert(candidates(a, rules) + candidates(b, rules) =~= candidates(a, rules));
    } else {
        lemma_candidates_concat(a, b.drop_last(), rules);
        assert((a + b).drop_last() =~= a + b.drop_last());
        assert((a + b).last() == b.last());
        assert(candidates(a + b, rules) =~= candidates(a, rules) + candidates(b, rules));
    }
}

/// A match among the first candidates is the match of the whole; without
/// one, the match of the whole is that of the candidates that follow.
pub proof fn lemma_first_match_concat(target: Seq<char>, a: Seq<Seq<char>>, b: Seq<Seq<char>>)
    ensures
        first_match(target, a + b) == if first_match(target, a) is Some {
            first_match(target, a)
        } else {
            first_match(target, b)
        },
    decreases a.len(),
{
    if a.len() == 0 {
        assert(a + b =~= b);
    } else {
        assert((a + b).first() == a.first());
        assert((a + b).drop_first() =~= a.drop_first() + b);
        lemma_first_match_concat(target, a.drop_first(), b);
    }
}

/// What `first_match` finds is the candidate at the least position whose
/// digest is the target, and it finds nothing only where no candidate has
/// that digest.
pub proof fn lemma_first_match_is_first(target: Seq<char>, tested: Seq<Seq<char>>)
    ensures
        first_match(target, tested) is None <==> forall|k: int|
            0 <= k < tested.len() ==> digest_hex(#[trigger] tested[k]) != target,
        first_match(target, tested) is Some ==> exists|k: int|
            0 <= k < tested.len() && first_match(target, tested) == Some(#[trigger] tested[k])
                && digest_hex(tested[k]) == target && forall|j: int|
                0 <= j < k ==> digest_hex(#[trigger] tested[j]) != target,
    decreases tested.len(),
{
    if tested.len() > 0 {
        let rest = tested.drop_first();
        lemma_first_match_is_first(target, rest);
        if digest_hex(tested.first()) == target {
            assert(first_match(target, tested) == Some(tested[0]));
        } else {
            assert forall|k: int| 0 <= k < rest.len() implies rest[k] == tested[k + 1] by {}
            if first_match(target, rest) is Some {
                let k = choose|k: int|
                    0 <= k < rest.len() && first_match(target, rest) == Some(#[trigger] rest[k])
                        && digest_hex(rest[k]) == target && forall|j: int|
                        0 <= j < k ==> digest_hex(#[trigger] rest[j]) != target;
                assert(tested[k + 1] == rest[k]);
                assert forall|j: int| 0 <= j < k + 1 implies digest_hex(#[trigger] tested[j])
                    != target by {
                    if j > 0 {
                        assert(tested[j] == rest[j - 1]);
                    }
                }
            } else {
                assert forall|k: int| 0 <= k < tested.len() implies digest_hex(
                    #[trigger] tested[k],
                ) != target by {
                    if k > 0 {
                        assert(tested[k] == rest[k - 1]);
                    }
                }
            }
        }
    }
}

/// One step along the candidates: where none of the first `k` is a match,
/// the one at `k` is the match of the whole if its digest is the target,
/// and else none of the first `k + 1` is a match.
pub proof fn lemma_first_match_step(target: Seq<char>, tested: Seq<Seq<char>>, k: int)
    requires
        0 <= k < tested.len(),
        first_match(target, tested.take(k)) is None,
    ensures
        digest_hex(tested[k]) == target ==> first_match(target, tested) == Some(tested[k]),
        digest_hex(tested[k]) != target ==> first_match(target, tested.take(k + 1)) is None,
{
    let one = seq![tested[k]];
    assert(one.first() == tested[k]);
    assert(first_match(target, one.drop_first()) is None);
    assert(tested.take(k + 1) =~= tested.take(k) + one);
    lemma_first_match_concat(target, tested.take(k), one);
    assert(tested =~= tested.take(k + 1) + tested.skip(k + 1));
    lemma_first_match_concat(target, tested.take(k + 1), tested.skip(k + 1));
}

/// One step along the rules: where the word and what the first `i` rules
/// derive hold no match, a match among what the rule at `i` derives is the
/// match of the whole expansion, and without one the first `i + 1` rules
/// hold no match either.
pub proof fn lemma_expand_step<R: Rule>(target: Seq<char>, word: Seq<char>, rules: Seq<R>, i: int)
    requires
        0 <= i < rules.len(),
        first_match(target, expand(word, rules.take(i))) is None,
    ensures
        first_match(target, rules[i].variants(word)) is Some ==> first_match(
            target,
            expand(word, rules),
        ) == first_match(target, rules[i].variants(word)),
        first_match(target, rules[i].variants(word)) is None ==> first_match(
            target,
            expand(word, rules.take(i + 1)),
        ) is None,
{
    let here = rules[i].variants(word);
    assert(rules.take(i + 1).drop_last() =~= rules.take(i));
    assert(rules.take(i + 1).last() == rules[i]);
    assert(expand(word, rules.take(i + 1)) =~= expand(word, rules.take(i)) + here);
    lemma_first_match_concat(target, expand(word, rules.take(i)), here);
    assert(rules =~= rules.take(i + 1) + rules.skip(i + 1));
    lemma_derived_concat(word, rules.take(i + 1), rules.skip(i + 1));
    assert(expand(word, rules) =~= expand(word, rules.take(i + 1)) + derived(
        word,
        rules.skip(i + 1),
    ));
    lemma_first_match_concat(
        target,
        expand(word, rules.take(i + 1)),
        derived(word, rules.skip(i + 1)),
    );
}

/// One step along the words: where the first `n` words hold no match, a
/// match among the candidates of the word at `n` is the match of the whole
/// list, and without one the first `n + 1` words hold no match either.
pub proof fn lemma_candidates_step<R: Rule>(
    target: Seq<char>,
    list: Seq<Seq<char>>,
    rules: Seq<R>,
    n: int,
)
    requires
        0 <= n < list.len(),
        first_match(target, candidates(list.take(n), rules)) is None,
    ensures
        first_match(target, expand(list[n], rules)) is Some ==> first_match(
            target,
            candidates(list, rules),
        ) == first_match(target, expand(list[n], rules)),
        first_match(target, expand(list[n], rules)) is None ==> first_match(
            target,
            candidates(list.take(n + 1), rules),
        ) is None,
{
    let here = expand(list[n], rules);
    assert(list.take(n + 1).drop_last() =~= list.take(n));
    assert(list.take(n + 1).last() == list[n]);
    lemma_first_match_concat(target, candidates(list.take(n), rules), here);
    assert(list =~= list.take(n + 1) + list.skip(n + 1));
    lemma_candidates_concat(list.take(n + 1), list.skip(n + 1), rules);
    lemma_first_match_concat(
        target,
        candidates(list.take(n + 1), rules),
        candidates(list.skip(n + 1), rules),
    );
}

/// A list of words holds a match exactly where one of its words does.
pub proof fn lemma_match_in_some_word<R: Rule>(
    target: Seq<char>,
    list: Seq<Seq<char>>,
    rules: Seq<R>,
)
    ensures
        first_match(target, candidates(list, rules)) is Some <==> exists|k: int|
            0 <= k < list.len() && first_match(target, expand(#[trigger] list[k], rules)) is Some,
    decreases list.len(),
{
    if list.len() > 0 {
        let shorter = list.drop_last();
        lemma_match_in_some_word(target, shorter, rules);
        lemma_first_match_concat(target, candidates(shorter, rules), expand(list.last(), rules));
        if first_match(target, candidates(list, rules)) is Some {
            if first_match(target, candidates(shorter, rules)) is Some {
                let k = choose|k: int|
                    0 <= k < shorter.len() && first_match(
                        target,
                        expand(#[trigger] shorter[k], rules),
                    ) is Some;
                assert(list[k] == shorter[k]);
            } else {
                assert(list[list.len() - 1] == list.last());
            }
        }
        if exists|k: int|
            0 <= k < list.len() && first_match(target, expand(#[trigger] list[k], rules)) is Some {
            let k = choose|k: int|
                0 <= k < list.len() && first_match(target, expand(#[trigger] list[k], rules))
                    is Some;
            if k < shorter.len() {
                assert(shorter[k] == list[k]);
            }
        }
    }
}

/// A single line gives the candidates of its word.
pub proof fn lemma_candidates_of_one_line<R: Rule>(line: Seq<char>, rules: Seq<R>)
    ensures
        candidates(trimmed(seq![line]), rules) == expand(trim(line), rules),
{
    let list = trimmed(seq![line]);
    assert(list.last() == trim(line));
    assert(list.drop_last() =~= Seq::<Seq<char>>::empty());
    assert(candidates(list.drop_last(), rules) =~= Seq::<Seq<char>>::empty());
    assert(candidates(list, rules) =~= expand(trim(line), rules));
}

/// A batch of lines that follows lines without a match: a match in the
/// batch is the match of the whole wordlist, and without one the lines up
/// to the end of the batch hold no match.
pub proof fn lemma_batch_of_lines<R: Rule>(
    target: Seq<char>,
    all: Seq<Seq<char>>,
    rules: Seq<R>,
    before: Seq<Seq<char>>,
    batch: Seq<Seq<char>>,
)
    requires
        before.len() + batch.len() <= all.len(),
        all.take(before.len() as int + batch.len()) == before + batch,
        first_match(target, candidates(trimmed(before), rules)) is None,
    ensures
        first_match(target, candidates(trimmed(batch), rules)) is Some ==> first_match(
            target,
            candidates(trimmed(all), rules),
        ) == first_match(target, candidates(trimmed(batch), rules)),
        first_match(target, candidates(trimmed(batch), rules)) is None ==> first_match(
            target,
            candidates(trimmed(before + batch), rules),
        ) is None,
{
    let m = before.len() as int + batch.len();
    let rest = all.skip(m);
    assert(all =~= (before + batch) + rest);
    assert(trimmed(before + batch) =~= trimmed(before) + trimmed(batch));
    assert(trimmed(all) =~= trimmed(before + batch) + trimmed(rest));
    lemma_candidates_concat(trimmed(before), trimmed(batch), rules);
    lemma_candidates_concat(trimmed(before + batch), trimmed(rest), rules);
    lemma_first_match_concat(
        target,
        candidates(trimmed(before), rules),
        candidates(trimmed(batch), rules),
    );
    lemma_first_match_concat(
        target,
        candidates(trimmed(before + batch), rules),
        candidates(trimmed(rest), rules),
    );
}

/// Every candidate that the rules derive is a variant that one of the rules
/// gives of the word itself: no rule is applied to what another has
/// derived. The pair that is handed back says which rule and which of its
/// variants.
pub proof fn lemma_derived_from_word<R: Rule>(word: Seq<char>, rules: Seq<R>, k: int) -> (at: (
    int,
    int,
))
    requires
        0 <= k < derived(word, rules).len(),
    ensures
        0 <= at.0 < rules.len(),
        0 <= at.1 < rules[at.0].variants(word).len(),
        derived(word, rules)[k] == rules[at.0].variants(word)[at.1],
    decreases rules.len(),
{
    let earlier = derived(word, rules.drop_last());
    if k < earlier.len() {
        let at = lemma_derived_from_word(word, rules.drop_last(), k);
        assert(rules.drop_last()[at.0] == rules[at.0]);
        at
    } else {
        (rules.len() - 1, k - earlier.len())
    }
}

/// A wordlist of one line with the word `word`, searched for the digest of
/// `word`, gives `word` back, whatever the rules are. The word has to be
/// one that a line can hold as it is: without a line feed, and without
/// white space at its ends, which a search takes away.
pub proof fn lemma_finds_own_word<R: Rule>(word: Seq<char>, rules: Seq<R>)
    requires
        is_single_line(word),
        trim(word) == word,
    ensures
        search(digest_hex(word), word.push('\n'), rules) == Some(word),
        word.len() > 0 ==> search(digest_hex(word), word, rules) == Some(word),
{
    lemma_lines_of_single_line(word);
    lemma_candidates_of_one_line(word, rules);
    assert(trimmed(seq![word]) =~= seq![word]);
    assert(expand(word, rules).first() == word);
}

/// A search finds nothing exactly where no candidate of the wordlist has the
/// digest that is looked for, and what it finds is a candidate of the
/// wordlist with that digest before which no candidate has it.
pub proof fn lemma_search_finds_first<R: Rule>(
    target: Seq<char>,
    contents: Seq<char>,
    rules: Seq<R>,
)
    ensures
        search(target, contents, rules) is None <==> forall|k: int|
            0 <= k < candidates(words(contents), rules).len() ==> digest_hex(
                #[trigger] candidates(words(contents), rules)[k],
            ) != target,
        search(target, contents, rules) is Some ==> exists|k: int|
            0 <= k < candidates(words(contents), rules).len() && search(target, contents, rules)
                == Some(#[trigger] candidates(words(contents), rules)[k]) && digest_hex(
                candidates(words(contents), rules)[k],
            ) == target && forall|j: int|
                0 <= j < k ==> digest_hex(#[trigger] candidates(words(contents), rules)[j])
                    != target,
{
    lemma_first_match_is_first(target, candidates(words(contents), rules));
}

/// An empty wordlist holds no candidate, and a search of it finds nothing.
pub proof fn lemma_empty_wordlist<R: Rule>(target: Seq<char>, rules: Seq<R>)
    ensures
        search(target, Seq::<char>::empty(), rules) is None,
{
    assert(lines(Seq::<char>::empty()) =~= Seq::<Seq<char>>::empty());
    assert(words(Seq::<char>::empty()) =~= Seq::<Seq<char>>::empty());
}

/// The candidates that `word` gives under `rules`, each in a string of its
/// own: the word first, then what each rule derives from it, in the order
/// of the rules.
pub fn expand_candidates<R: Rule>(word: &str, rules: &[R]) -> (out: Vec<String>)
    ensures
        texts(out@) == expand(word@, rules@),
{
    let mut out: Vec<String> = Vec::new();
    out.push(String::from_str(word));
    assert(rules@.take(0) =~= Seq::<R>::empty());
    assert(texts(out@) =~= expand(word@, rules@.take(0)));
    let mut i: usize = 0;
    while i < rules.len()
        invariant
            i <= rules.len(),
            texts(out@) == expand(word@, rules@.take(i as int)),
        decreases rules.len() - i,
    {
        let ghost before = texts(out@);
        let mut variants = rules[i].apply(String::from_str(word));
        let ghost added = texts(variants@);
        out.append(&mut variants);
        assert(texts(out@) =~= before + added);
        assert(rules@.take(i + 1).drop_last() =~= rules@.take(i as int));
        assert(rules@.take(i + 1).last() == rules@[i as int]);
        assert(expand(word@, rules@.take(i + 1)) =~= before + added);
        i = i + 1;
    }
    assert(rules@.take(rules@.len() as int) =~= rules@);
    out
}

} // verus!
