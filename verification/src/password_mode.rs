//! The three ways of walking a wordlist.
//!
//! `mem` cuts the whole wordlist into lines and then tests them. `line`
//! holds one line at a time. `threads` gathers lines into chunks and tests
//! the lines of a chunk on several threads at once. All three find the
//! first match in the order of the wordlist.

use crate::candidates::{
    candidates, expand, first_match, lemma_batch_of_lines, lemma_candidates_of_one_line,
    lemma_match_in_some_word, search, trimmed,
};
use crate::constants::CHUNK_SIZE;
use crate::error::CrackError;
use crate::password_cracker::PasswordCracker;
use crate::password_rules_attack::Rule;
use crate::processing_strategy::ProcessingStrategy;
use crate::text::{
    lemma_line_ends, lemma_line_goes_on, lemma_text_ends, lines, read_lines, split_lines,
    text_of, texts, trim,
};
use rayon::iter::{IntoParallelRefIterator, ParallelIterator};
use vstd::prelude::*;
use vstd::string::StringExecFns;

verus! {

/// The strategies that hold the whole wordlist.
pub trait MemProcessingStrategy: ProcessingStrategy {

}

/// The strategies that hold one line at a time.
pub trait LineProcessingStrategy: ProcessingStrategy {

}

/// The strategies that test the lines of a chunk on several threads.
pub trait ThreadsProcessingStrategy: ProcessingStrategy {

}

/// Cuts the whole wordlist into lines, then tests them in their order.
pub struct MemPasswordMode;

/// Tests each line as soon as it is read, and keeps none.
pub struct LinePasswordMode;

/// Gathers lines into chunks and tests the lines of a chunk on several
/// threads at once. Chunks are tested one after the other.
pub struct ThreadsPasswordMode {
    chunk_size: usize,
}

impl MemProcessingStrategy for MemPasswordMode {

}

impl LineProcessingStrategy for LinePasswordMode {

}

impl ThreadsProcessingStrategy for ThreadsPasswordMode {

}

impl ProcessingStrategy for MemPasswordMode {
    fn process_wordlist<R: Rule>(
        &self,
        contents: &str,
        password_cracker: &PasswordCracker,
        rules: &[R],
    ) -> (found: Option<String>) {
        let passwords = read_lines(contents);
        self.check_lines(passwords.as_slice(), password_cracker, rules)
    }
}

impl ProcessingStrategy for LinePasswordMode {
    fn process_wordlist<R: Rule>(
        &self,
        contents: &str,
        password_cracker: &PasswordCracker,
        rules: &[R],
    ) -> (found: Option<String>) {
        broadcast use vstd::string::group_string_axioms;

        let ghost target = password_cracker@;
        let ghost all = lines(contents@);
        let ghost mut ended: Seq<Seq<char>> = Seq::empty();
        let mut line = String::new();
        assert(contents@.take(0) =~= Seq::<char>::empty());
        assert(ended.push(line@) =~= split_lines(contents@.take(0)));
        assert(trimmed(ended) =~= Seq::<Seq<char>>::empty());
        for c in it: contents.chars()
            invariant
                it.seq() == contents@,
                target == password_cracker@,
                all == lines(contents@),
                split_lines(contents@.take(it.index() as int)) == ended.push(line@),
                first_match(target, candidates(trimmed(ended), rules@)) is None,
        {
            if c == '\n' {
                let found = self.check_line(line.as_str(), password_cracker, rules);
                proof {
                    lemma_line_ends(contents@, it.index() as int, ended, line@);
                    lemma_candidates_of_one_line(line@, rules@);
                    assert(ended.push(line@) =~= ended + seq![line@]);
                    lemma_batch_of_lines(target, all, rules@, ended, seq![line@]);
                }
                if found.is_some() {
                    return found;
                }
                proof {
                    ended = ended.push(line@);
                }
                line = String::new();
            } else {
                proof {
                    lemma_line_goes_on(contents@, it.index() as int, ended, line@);
                }
                line.push(c);
            }
        }
        assert(contents@.take(contents@.len() as int) =~= contents@);
        proof {
            lemma_text_ends(contents@, ended, line@);
        }
        if line.as_str().is_empty() {
            None
        } else {
            let found = self.check_line(line.as_str(), password_cracker, rules);
            proof {
                lemma_candidates_of_one_line(line@, rules@);
                assert(ended.push(line@) =~= ended + seq![line@]);
                assert(all.take(all.len() as int) =~= all);
                lemma_batch_of_lines(target, all, rules@, ended, seq![line@]);
            }
            found
        }
    }
}

/// Tells whether one of `lines` gives a candidate whose digest is `target`.
pub open spec fn some_line_matches<R: Rule>(
    target: Seq<char>,
    lines: Seq<Seq<char>>,
    rules: Seq<R>,
) -> bool {
    exists|k: int|
        0 <= k < lines.len() && first_match(target, expand(trim(#[trigger] lines[k]), rules))
            is Some
}

impl ThreadsPasswordMode {
    /// The number of lines of a full chunk.
    pub closed spec fn spec_chunk_size(&self) -> usize {
        self.chunk_size
    }

    /// A mode that tests `chunk_size` lines at once. With a size of zero
    /// or one every line is a chunk of its own.
    pub fn new(chunk_size: usize) -> (mode: Self)
        ensures
            mode.chunk_size() == chunk_size,
    {
        ThreadsPasswordMode { chunk_size }
    }

    /// The number of lines of a full chunk.
    #[verifier::when_used_as_spec(spec_chunk_size)]
    pub fn chunk_size(&self) -> (size: usize)
        ensures
            size == self.chunk_size(),
    {
        self.chunk_size
    }

    /// Tells whether the word of `line` or one of the candidates derived
    /// from it has the digest that is looked for.
    fn line_matches<R: Rule>(
        &self,
        line: &String,
        password_cracker: &PasswordCracker,
        rules: &[R],
    ) -> (hit: bool)
        ensures
            hit == first_match(password_cracker@, expand(trim(line@), rules@)) is Some,
    {
        self.check_line(line.as_str(), password_cracker, rules).is_some()
    }

    /// Rests on rayon's `par_iter` and `any`: `any` hands each line of the
    /// chunk to the test, on whatever thread, and answers `true` exactly
    /// where the test does so for one of them.
    #[verifier::external_body]
    fn any_line_matches<R: Rule>(
        &self,
        chunk: &[String],
        password_cracker: &PasswordCracker,
        rules: &[R],
    ) -> (hit: bool)
        ensures
            hit == some_line_matches(password_cracker@, texts(chunk@), rules@),
    {
        chunk.par_iter().any(|line| self.line_matches(line, password_cracker, rules))
    }

    /// Tests the lines of one chunk, all at once. Where one of them gives a
    /// match, the chunk is walked in its order for the candidate to hand
    /// back, so that the answer does not depend on which thread was first.
    pub fn process_chunk<R: Rule>(
        &self,
        chunk: &[String],
        password_cracker: &PasswordCracker,
        rules: &[R],
    ) -> (found: Option<String>)
        ensures
            text_of(found) == first_match(
                password_cracker@,
                candidates(trimmed(texts(chunk@)), rules@),
            ),
    {
        if self.any_line_matches(chunk, password_cracker, rules) {
            self.check_lines(chunk, password_cracker, rules)
        } else {
            proof {
                let list = trimmed(texts(chunk@));
                lemma_match_in_some_word(password_cracker@, list, rules@);
                assert forall|k: int| 0 <= k < list.len() implies first_match(
                    password_cracker@,
                    expand(#[trigger] list[k], rules@),
                ) is None by {
                    assert(list[k] == trim(texts(chunk@)[k]));
                }
            }
            None
        }
    }

    /// Takes one more line into `chunk`. Where that fills the chunk, its
    /// lines are tested: without a match the chunk is emptied for the lines
    /// to come, and with one it is left as it is.
    pub fn push_line<R: Rule>(
        &self,
        chunk: &mut Vec<String>,
        line: String,
        password_cracker: &PasswordCracker,
        rules: &[R],
    ) -> (found: Option<String>)
        ensures
            old(chunk)@.len() + 1 < self.chunk_size() ==> found is None && final(chunk)@ == old(
                chunk,
            )@.push(line),
            old(chunk)@.len() + 1 >= self.chunk_size() ==> text_of(found) == first_match(
                password_cracker@,
                candidates(trimmed(texts(old(chunk)@.push(line))), rules@),
            ),
            old(chunk)@.len() + 1 >= self.chunk_size() && found is None ==> final(chunk)@.len()
                == 0,
            old(chunk)@.len() + 1 >= self.chunk_size() && found is Some ==> final(chunk)@ == old(
                chunk,
            )@.push(line),
    {
        chunk.push(line);
        if chunk.len() >= self.chunk_size {
            let found = self.process_chunk(chunk.as_slice(), password_cracker, rules);
            if found.is_some() {
                return found;
            }
            chunk.clear();
        }
        None
    }
}

impl ProcessingStrategy for ThreadsPasswordMode {
    fn process_wordlist<R: Rule>(
        &self,
        contents: &str,
        password_cracker: &PasswordCracker,
        rules: &[R],
    ) -> (found: Option<String>) {
        broadcast use vstd::string::group_string_axioms;

        let ghost target = password_cracker@;
        let ghost all = lines(contents@);
        let ghost mut tested: Seq<Seq<char>> = Seq::empty();
        let mut chunk: Vec<String> = Vec::new();
        let mut line = String::new();
        assert(contents@.take(0) =~= Seq::<char>::empty());
        assert((tested + texts(chunk@)).push(line@) =~= split_lines(contents@.take(0)));
        assert(trimmed(tested) =~= Seq::<Seq<char>>::empty());
        for c in it: contents.chars()
            invariant
                it.seq() == contents@,
                target == password_cracker@,
                all == lines(contents@),
                split_lines(contents@.take(it.index() as int)) == (tested + texts(chunk@)).push(
                    line@,
                ),
                first_match(target, candidates(trimmed(tested), rules@)) is None,
        {
            let ghost ended = tested + texts(chunk@);
            if c == '\n' {
                let ghost batch = texts(chunk@).push(line@);
                proof {
                    lemma_line_ends(contents@, it.index() as int, ended, line@);
                    assert(ended.push(line@) =~= tested + batch);
                    lemma_batch_of_lines(target, all, rules@, tested, batch);
                }
                let ghost gathered = chunk@.push(line);
                assert(texts(gathered) =~= batch);
                let found = self.push_line(&mut chunk, line, password_cracker, rules);
                if found.is_some() {
                    return found;
                }
                proof {
                    if chunk@.len() == 0 {
                        tested = tested + batch;
                        assert(tested + texts(chunk@) =~= tested);
                    }
                }
                line = String::new();
            } else {
                proof {
                    lemma_line_goes_on(contents@, it.index() as int, ended, line@);
                }
                line.push(c);
            }
        }
        assert(contents@.take(contents@.len() as int) =~= contents@);
        proof {
            lemma_text_ends(contents@, tested + texts(chunk@), line@);
        }
        if !line.as_str().is_empty() {
            let ghost batch = texts(chunk@).push(line@);
            proof {
                assert((tested + texts(chunk@)).push(line@) =~= tested + batch);
                assert(all.take(all.len() as int) =~= all);
                lemma_batch_of_lines(target, all, rules@, tested, batch);
            }
            let ghost gathered = chunk@.push(line);
            assert(texts(gathered) =~= batch);
            let found = self.push_line(&mut chunk, line, password_cracker, rules);
            if found.is_some() {
                return found;
            }
            proof {
                if chunk@.len() == 0 {
                    tested = tested + batch;
                    assert(tested + texts(chunk@) =~= tested);
                }
            }
        }
        proof {
            assert(all.take(all.len() as int) =~= all);
            lemma_batch_of_lines(target, all, rules@, tested, texts(chunk@));
        }
        self.process_chunk(chunk.as_slice(), password_cracker, rules)
    }
}

/// The way in which a wordlist is walked.
pub enum PasswordMode {
    /// `mem`: the whole wordlist is cut into lines before any is tested.
    Mem(MemPasswordMode),
    /// `line`: one line is held at a time.
    Line(LinePasswordMode),
    /// `threads`: the lines of a chunk are tested at once.
    Threads(ThreadsPasswordMode),
}

/// Tells whether `parsed` is what the name of a mode stands for: `mem`,
/// `line`, or `threads`, which tests `CHUNK_SIZE` lines at once. Any other
/// name stands for no mode and comes back as `InvalidMode`.
pub open spec fn is_mode_named(name: Seq<char>, parsed: Result<PasswordMode, CrackError>) -> bool {
    if name == "mem"@ {
        parsed matches Ok(PasswordMode::Mem(_))
    } else if name == "line"@ {
        parsed matches Ok(PasswordMode::Line(_))
    } else if name == "threads"@ {
        parsed matches Ok(PasswordMode::Threads(mode)) && mode.chunk_size() == CHUNK_SIZE
    } else {
        parsed matches Err(CrackError::InvalidMode(kept)) && kept@ == name
    }
}

impl PasswordMode {
    /// The mode that `s` names.
    pub fn from_str(s: &str) -> (parsed: Result<PasswordMode, CrackError>)
        ensures
            is_mode_named(s@, parsed),
    {
        let name = String::from_str(s);
        if name == String::from_str("mem") {
            Ok(PasswordMode::Mem(MemPasswordMode))
        } else if name == String::from_str("line") {
            Ok(PasswordMode::Line(LinePasswordMode))
        } else if name == String::from_str("threads") {
            Ok(PasswordMode::Threads(ThreadsPasswordMode::new(CHUNK_SIZE)))
        } else {
            Err(CrackError::InvalidMode(name))
        }
    }

    /// The name of the variant: `Mem`, `Line` or `Threads`.
    pub fn name(&self) -> (name: &'static str)
        ensures
            name@ == match self {
                PasswordMode::Mem(_) => "Mem"@,
                PasswordMode::Line(_) => "Line"@,
                PasswordMode::Threads(_) => "Threads"@,
            },
    {
        match self {
            PasswordMode::Mem(_) => "Mem",
            PasswordMode::Line(_) => "Line",
            PasswordMode::Threads(_) => "Threads",
        }
    }

    /// Searches the wordlist `contents` in the way that the mode stands
    /// for. The answer is the same in every mode: the first candidate, in
    /// the order of the wordlist, whose digest is the one looked for.
    pub fn process_wordlist<R: Rule>(
        &self,
        contents: &str,
        password_cracker: &PasswordCracker,
        rules: &[R],
    ) -> (found: Option<String>)
        ensures
            text_of(found) == search(password_cracker@, contents@, rules@),
    {
        match self {
            PasswordMode::Mem(strategy) => {
                strategy.process_wordlist(contents, password_cracker, rules)
            },
            PasswordMode::Line(strategy) => {
                strategy.process_wordlist(contents, password_cracker, rules)
            },
            PasswordMode::Threads(strategy) => {
                strategy.process_wordlist(contents, password_cracker, rules)
            },
        }
    }
}

} // verus!
