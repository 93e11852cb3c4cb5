//! What every way of walking a wordlist has in common.

use crate::candidates::{
    candidates, expand, first_match, lemma_candidates_step, lemma_expand_step,
    lemma_first_match_step, search, trimmed,
};
use crate::password_cracker::PasswordCracker;
use crate::password_rules_attack::Rule;
use crate::text::{text_of, texts, trim, trim_str};
use vstd::prelude::*;
use vstd::string::StringExecFns;

verus! {

/// A way of walking a wordlist. The ways differ in how much of the wordlist
/// they hold at a time and in whether they test several words at once; they
/// test the same candidates and find the same one.
pub trait ProcessingStrategy {
    /// Searches the wordlist `contents`, one word to a line, for a candidate
    /// whose digest is the one that `password_cracker` looks for. Each line
    /// gives its word, without the white space around it, and what `rules`
    /// derive from that word. The candidate that is handed back is the
    /// first match in the order of the wordlist; `None` says that the
    /// wordlist holds no match.
    fn process_wordlist<R: Rule>(
        &self,
        contents: &str,
        password_cracker: &PasswordCracker,
        rules: &[R],
    ) -> (found: Option<String>)
        ensures
            text_of(found) == search(password_cracker@, contents@, rules@),
    ;

    /// Tests `password` and then, rule by rule, what `rules` derive from
    /// it, and stops at the first candidate whose digest is the one looked
    /// for. A rule is applied only when no candidate before its own has
    /// matched.
    fn apply_rules_and_check_password<R: Rule>(
        &self,
        password: &str,
        password_cracker: &PasswordCracker,
        rules: &[R],
    ) -> (found: Option<String>)
        ensures
            text_of(found) == first_match(password_cracker@, expand(password@, rules@)),
    {
        let ghost target = password_cracker@;
        let ghost word = password@;
        assert(rules@.take(0) =~= Seq::<R>::empty());
        assert(expand(word, rules@.take(0)) =~= seq![word]);
        assert(seq![word].take(0) =~= Seq::<Seq<char>>::empty());
        proof {
            lemma_first_match_step(target, seq![word], 0);
        }
        if password_cracker.check_password(password) {
            assert(expand(word, rules@).first() == word);
            return Some(String::from_str(password));
        }
        assert(seq![word].take(1) =~= seq![word]);
        let mut i: usize = 0;
        while i < rules.len()
            invariant
                i <= rules.len(),
                target == password_cracker@,
                word == password@,
                first_match(target, expand(word, rules@.take(i as int))) is None,
            decreases rules.len() - i,
        {
            let variants = rules[i].apply(String::from_str(password));
            let ghost here = texts(variants@);
            assert(here.take(0) =~= Seq::<Seq<char>>::empty());
            let mut j: usize = 0;
            while j < variants.len()
                invariant
                    j <= variants.len(),
                    0 <= i < rules.len(),
                    target == password_cracker@,
                    word == password@,
                    here == texts(variants@),
                    here == rules@[i as int].variants(word),
                    first_match(target, expand(word, rules@.take(i as int))) is None,
                    first_match(target, here.take(j as int)) is None,
                decreases variants.len() - j,
            {
                proof {
                    lemma_first_match_step(target, here, j as int);
                }
                assert(here[j as int] == variants@[j as int]@);
                if password_cracker.check_password(variants[j].as_str()) {
                    proof {
                        lemma_expand_step(target, word, rules@, i as int);
                    }
                    return Some(variants[j].clone());
                }
                j = j + 1;
            }
            assert(here.take(here.len() as int) =~= here);
            proof {
                lemma_expand_step(target, word, rules@, i as int);
            }
            i = i + 1;
        }
        assert(rules@.take(rules@.len() as int) =~= rules@);
        None
    }

    /// Tests the word of one line of a wordlist: the line without the white
    /// space around it, and what `rules` derive from that.
    fn check_line<R: Rule>(
        &self,
        line: &str,
        password_cracker: &PasswordCracker,
        rules: &[R],
    ) -> (found: Option<String>)
        ensures
            text_of(found) == first_match(password_cracker@, expand(trim(line@), rules@)),
    {
        self.apply_rules_and_check_password(trim_str(line), password_cracker, rules)
    }

    /// Tests the words of `lines` one after the other, and stops at the
    /// first line that gives a match.
    fn check_lines<R: Rule>(
        &self,
        lines: &[String],
        password_cracker: &PasswordCracker,
        rules: &[R],
    ) -> (found: Option<String>)
        ensures
            text_of(found) == first_match(
                password_cracker@,
                candidates(trimmed(texts(lines@)), rules@),
            ),
    {
        let ghost target = password_cracker@;
        let ghost list = trimmed(texts(lines@));
        assert(list.take(0) =~= Seq::<Seq<char>>::empty());
        let mut n: usize = 0;
        while n < lines.len()
            invariant
                n <= lines.len(),
                target == password_cracker@,
                list == trimmed(texts(lines@)),
                first_match(target, candidates(list.take(n as int), rules@)) is None,
            decreases lines.len() - n,
        {
            let found = self.check_line(lines[n].as_str(), password_cracker, rules);
            proof {
                lemma_candidates_step(target, list, rules@, n as int);
            }
            if found.is_some() {
                return found;
            }
            n = n + 1;
        }
        assert(list.take(list.len() as int) =~= list);
        None
    }
}

} // verus!
