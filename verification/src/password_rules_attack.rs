//! The rules that derive further candidates from a word of the wordlist.
//!
//! A rule takes the word as the wordlist gives it and hands back the
//! candidates that it derives from it, in a fixed order. Rules are not
//! applied to each other's results.

use crate::error::CrackError;
use crate::text::texts;
use vstd::prelude::*;
use vstd::string::StringExecFns;

verus! {

/// A way to derive candidates from a word. A rule has no state: the same
/// word always gives the same candidates, and rules can be shared between
/// threads.
pub trait Rule: Sync {
    /// The candidates that the rule derives from `word`, in their order.
    spec fn variants(&self, word: Seq<char>) -> Seq<Seq<char>>;

    /// Derives the candidates from `password`.
    fn apply(&self, password: String) -> (out: Vec<String>)
        ensures
            texts(out@) == self.variants(password@),
    ;
}

/// The character that stands for the digit `d`, for `d` from 0 to 9.
pub open spec fn digit(d: int) -> char {
    seq!['0', '1', '2', '3', '4', '5', '6', '7', '8', '9'][d]
}

/// `word` with each of the ten digits after it, from 0 to 9.
pub open spec fn with_digit_appended(word: Seq<char>) -> Seq<Seq<char>> {
    Seq::new(10, |d: int| word.push(digit(d)))
}

/// `word` with each of the ten digits before it, from 0 to 9.
pub open spec fn with_digit_prepended(word: Seq<char>) -> Seq<Seq<char>> {
    Seq::new(10, |d: int| seq![digit(d)] + word)
}

/// `word` with `to` in every place where it has `from`.
pub open spec fn replaced(word: Seq<char>, from: char, to: char) -> Seq<char> {
    word.map_values(
        |c: char|
            if c == from {
                to
            } else {
                c
            },
    )
}

/// Replacing leaves no `from` behind and keeps the length, so that a second
/// replacing changes nothing.
pub proof fn lemma_replaced_twice(word: Seq<char>, from: char, to: char)
    requires
        from != to,
    ensures
        replaced(word, from, to).len() == word.len(),
        forall|i: int| 0 <= i < word.len() ==> #[trigger] replaced(word, from, to)[i] != from,
        replaced(replaced(word, from, to), from, to) == replaced(word, from, to),
{
    assert(replaced(replaced(word, from, to), from, to) =~= replaced(word, from, to));
}

fn digit_char(d: u8) -> (c: char)
    requires
        d < 10,
    ensures
        c == digit(d as int),
{
    match d {
        0 => '0',
        1 => '1',
        2 => '2',
        3 => '3',
        4 => '4',
        5 => '5',
        6 => '6',
        7 => '7',
        8 => '8',
        _ => '9',
    }
}

fn replace_char(word: &str, from: char, to: char) -> (out: String)
    ensures
        out@ == replaced(word@, from, to),
{
    broadcast use vstd::string::group_string_axioms;

    let mut out = String::new();
    for c in it: word.chars()
        invariant
            it.seq() == word@,
            out@ == replaced(word@.take(it.index() as int), from, to),
    {
        let ghost before = word@.take(it.index() as int);
        assert(word@.take(it.index() + 1) =~= before.push(c));
        if c == from {
            out.push(to);
        } else {
            out.push(c);
        }
        assert(replaced(before.push(c), from, to) =~= out@);
    }
    assert(word@.take(word@.len() as int) =~= word@);
    out
}

/// Puts each digit after the word: `cat` gives `cat0` to `cat9`.
pub struct AppendDigitRule;

/// Puts each digit before the word: `cat` gives `0cat` to `9cat`.
pub struct PrependDigitRule;

/// Writes `@` for every small `a`: `banana` gives `b@n@n@`.
pub struct ReplaceLetterARule;

/// Writes `1` for every small `i`: `ninja` gives `n1nja`.
pub struct ReplaceLetterIRule;

impl Rule for AppendDigitRule {
    open spec fn variants(&self, word: Seq<char>) -> Seq<Seq<char>> {
        with_digit_appended(word)
    }

    fn apply(&self, password: String) -> (out: Vec<String>) {
        let mut out: Vec<String> = Vec::new();
        let mut d: u8 = 0;
        while d < 10
            invariant
                d <= 10,
                out@.len() == d,
                forall|k: int| 0 <= k < d ==> (#[trigger] out@[k])@ == password@.push(digit(k)),
            decreases 10 - d,
        {
            let mut variant = password.clone();
            variant.push(digit_char(d));
            out.push(variant);
            d = d + 1;
        }
        assert(texts(out@) =~= with_digit_appended(password@));
        out
    }
}

impl Rule for PrependDigitRule {
    open spec fn variants(&self, word: Seq<char>) -> Seq<Seq<char>> {
        with_digit_prepended(word)
    }

    fn apply(&self, password: String) -> (out: Vec<String>) {
        let mut out: Vec<String> = Vec::new();
        let mut d: u8 = 0;
        while d < 10
            invariant
                d <= 10,
                out@.len() == d,
                forall|k: int| 0 <= k < d ==> (#[trigger] out@[k])@ == seq![digit(k)] + password@,
            decreases 10 - d,
        {
            let mut variant = String::new();
            variant.push(digit_char(d));
            variant.append(password.as_str());
            assert(variant@ =~= seq![digit(d as int)] + password@);
            out.push(variant);
            d = d + 1;
        }
        assert(texts(out@) =~= with_digit_prepended(password@));
        out
    }
}

impl Rule for ReplaceLetterARule {
    open spec fn variants(&self, word: Seq<char>) -> Seq<Seq<char>> {
        seq![replaced(word, 'a', '@')]
    }

    fn apply(&self, password: String) -> (out: Vec<String>) {
        let mut out: Vec<String> = Vec::new();
        out.push(replace_char(password.as_str(), 'a', '@'));
        assert(texts(out@) =~= seq![replaced(password@, 'a', '@')]);
        out
    }
}

impl Rule for ReplaceLetterIRule {
    open spec fn variants(&self, word: Seq<char>) -> Seq<Seq<char>> {
        seq![replaced(word, 'i', '1')]
    }

    fn apply(&self, password: String) -> (out: Vec<String>) {
        let mut out: Vec<String> = Vec::new();
        out.push(replace_char(password.as_str(), 'i', '1'));
        assert(texts(out@) =~= seq![replaced(password@, 'i', '1')]);
        out
    }
}

/// One of the rules that the library knows, as a configuration names it.
#[derive(Debug, Clone, Copy, PartialEq, Eq, Structural)]
pub enum MutationRule {
    /// `append`: see [`AppendDigitRule`].
    AppendDigit,
    /// `prepend`: see [`PrependDigitRule`].
    PrependDigit,
    /// `replace_a`: see [`ReplaceLetterARule`].
    ReplaceLetterA,
    /// `replace_i`: see [`ReplaceLetterIRule`].
    ReplaceLetterI,
}

impl Rule for MutationRule {
    open spec fn variants(&self, word: Seq<char>) -> Seq<Seq<char>> {
        match self {
            MutationRule::AppendDigit => AppendDigitRule.variants(word),
            MutationRule::PrependDigit => PrependDigitRule.variants(word),
            MutationRule::ReplaceLetterA => ReplaceLetterARule.variants(word),
            MutationRule::ReplaceLetterI => ReplaceLetterIRule.variants(word),
        }
    }

    fn apply(&self, password: String) -> (out: Vec<String>) {
        match self {
            MutationRule::AppendDigit => AppendDigitRule.apply(password),
            MutationRule::PrependDigit => PrependDigitRule.apply(password),
            MutationRule::ReplaceLetterA => ReplaceLetterARule.apply(password),
            MutationRule::ReplaceLetterI => ReplaceLetterIRule.apply(password),
        }
    }
}

/// The four rules in the order in which `all` selects them.
pub open spec fn all_rules() -> Seq<MutationRule> {
    seq![
        MutationRule::AppendDigit,
        MutationRule::PrependDigit,
        MutationRule::ReplaceLetterA,
        MutationRule::ReplaceLetterI,
    ]
}

/// The rules that one name selects: `append`, `prepend`, `replace_a` and
/// `replace_i` select one rule each, `all` selects the four of them, and
/// any other name selects nothing.
pub open spec fn rules_named(name: Seq<char>) -> Option<Seq<MutationRule>> {
    if name == "append"@ {
        Some(seq![MutationRule::AppendDigit])
    } else if name == "prepend"@ {
        Some(seq![MutationRule::PrependDigit])
    } else if name == "replace_a"@ {
        Some(seq![MutationRule::ReplaceLetterA])
    } else if name == "replace_i"@ {
        Some(seq![MutationRule::ReplaceLetterI])
    } else if name == "all"@ {
        Some(all_rules())
    } else {
        None
    }
}

/// The rules that a list of names selects, in the order of the names, a
/// name that occurs twice selecting its rules twice. Where a name is not
/// known, the first such name.
pub open spec fn rules_of(names: Seq<Seq<char>>) -> Result<Seq<MutationRule>, Seq<char>>
    decreases names.len(),
{
    if names.len() == 0 {
        Ok(Seq::empty())
    } else {
        match rules_named(names.first()) {
            None => Err(names.first()),
            Some(first) => match rules_of(names.drop_first()) {
                Ok(rest) => Ok(first + rest),
                Err(name) => Err(name),
            },
        }
    }
}

fn same_text(a: &str, b: &str) -> (same: bool)
    ensures
        same == (a@ == b@),
{
    String::from_str(a) == String::from_str(b)
}

/// The rules that `name` selects, if it is the name of any.
pub fn parse_rule(name: &str) -> (selected: Option<Vec<MutationRule>>)
    ensures
        selected is Some == rules_named(name@) is Some,
        selected is Some ==> selected->0@ == rules_named(name@)->0,
{
    if same_text(name, "append") {
        Some(vec![MutationRule::AppendDigit])
    } else if same_text(name, "prepend") {
        Some(vec![MutationRule::PrependDigit])
    } else if same_text(name, "replace_a") {
        Some(vec![MutationRule::ReplaceLetterA])
    } else if same_text(name, "replace_i") {
        Some(vec![MutationRule::ReplaceLetterI])
    } else if same_text(name, "all") {
        Some(
            vec![
                MutationRule::AppendDigit,
                MutationRule::PrependDigit,
                MutationRule::ReplaceLetterA,
                MutationRule::ReplaceLetterI,
            ],
        )
    } else {
        None
    }
}

/// The rules that the names in `rule_strings` select, in the order of the
/// names. A name that the library does not know is handed back as
/// `UnknownRule`; where there are several, the first.
pub fn parse_rules(rule_strings: &[String]) -> (parsed: Result<Vec<MutationRule>, CrackError>)
    ensures
        match rules_of(texts(rule_strings@)) {
            Ok(rules) => parsed is Ok && parsed->Ok_0@ == rules,
            Err(name) => parsed matches Err(CrackError::UnknownRule(kept)) && kept@ == name,
        },
{
    let ghost names = texts(rule_strings@);
    let mut rules: Vec<MutationRule> = Vec::new();
    let mut i: usize = 0;
    assert(names.skip(0) =~= names);
    while i < rule_strings.len()
        invariant
            i <= rule_strings.len(),
            names == texts(rule_strings@),
            rules_of(names) == match rules_of(names.skip(i as int)) {
                Ok(rest) => Ok::<Seq<MutationRule>, Seq<char>>(rules@ + rest),
                Err(name) => Err(name),
            },
        decreases rule_strings.len() - i,
    {
        let ghost rest = names.skip(i as int);
        assert(rest.first() == rule_strings@[i as int]@);
        assert(rest.drop_first() =~= names.skip(i + 1));
        match parse_rule(rule_strings[i].as_str()) {
            None => {
                return Err(CrackError::UnknownRule(rule_strings[i].clone()));
            },
            Some(mut selected) => {
                let ghost before = rules@;
                let ghost added = selected@;
                rules.append(&mut selected);
                assert(rules@ == before + added);
                assert forall|later: Seq<MutationRule>|
                    (before + added) + later == before + (added + later) by {
                    assert((before + added) + later =~= before + (added + later));
                }
            },
        }
        i = i + 1;
    }
    assert(rules@ + Seq::<MutationRule>::empty() =~= rules@);
    Ok(rules)
}

} // verus!
