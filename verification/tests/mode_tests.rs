use password_cracker::constants::CHUNK_SIZE;
use password_cracker::digest::hash_password;
use password_cracker::error::CrackError;
use password_cracker::password_cracker::PasswordCracker;
use password_cracker::password_mode::{
    LinePasswordMode, MemPasswordMode, PasswordMode, ThreadsPasswordMode,
};
use password_cracker::password_rules_attack::{parse_rules, MutationRule};
use password_cracker::processing_strategy::ProcessingStrategy;

fn strings(words: &[&str]) -> Vec<String> {
    words.iter().map(|w| w.to_string()).collect()
}

fn cracker_for(word: &str) -> PasswordCracker {
    PasswordCracker::new(&hash_password(word)).unwrap()
}

fn no_rules() -> Vec<MutationRule> {
    vec![]
}

fn every_mode(chunk_size: usize) -> Vec<PasswordMode> {
    vec![
        PasswordMode::Mem(MemPasswordMode),
        PasswordMode::Line(LinePasswordMode),
        PasswordMode::Threads(ThreadsPasswordMode::new(chunk_size)),
    ]
}

fn some(word: &str) -> Option<String> {
    Some(word.to_string())
}

#[test]
fn line_mode_finds_the_word_in_the_middle() {
    let cracker = PasswordCracker::new("cbfdac6008f9cab4083784cbd1874f76618d2a97").unwrap();
    let wordlist = strings(&["hello", "password123", "world"]).join("\n");
    let found = LinePasswordMode.process_wordlist(&wordlist, &cracker, &no_rules());
    assert_eq!(found, some("password123"));
    let found = PasswordMode::from_str("line").unwrap().process_wordlist(
        &wordlist,
        &cracker,
        &no_rules(),
    );
    assert_eq!(found, some("password123"));
}

#[test]
fn threads_mode_does_not_join_words_or_chain_rules() {
    let cracker = PasswordCracker::new("cbfdac6008f9cab4083784cbd1874f76618d2a97").unwrap();
    let wordlist = strings(&["passw", "ord123"]).join("\n");
    let rules = vec![MutationRule::AppendDigit];
    let mode = ThreadsPasswordMode::new(1);
    assert_eq!(mode.process_wordlist(&wordlist, &cracker, &rules), None);
    assert_eq!(PasswordMode::Threads(mode).process_wordlist(&wordlist, &cracker, &rules), None);
}

#[test]
fn a_match_on_the_last_line_after_two_full_chunks_is_found() {
    for chunk_size in [1usize, 2, 3, 8, 50] {
        let mut words: Vec<String> = (0..2 * chunk_size).map(|n| format!("word{}", n)).collect();
        words.push("password123".to_string());
        assert_eq!(words.len(), 2 * chunk_size + 1);
        let cracker = cracker_for("password123");
        for ending in ["", "\n"] {
            let wordlist = format!("{}{}", words.join("\n"), ending);
            for mode in every_mode(chunk_size) {
                let found = mode.process_wordlist(&wordlist, &cracker, &no_rules());
                assert_eq!(found, some("password123"));
            }
        }
    }
}

#[test]
fn a_match_at_any_place_of_the_wordlist_is_found() {
    let chunk_size = 4usize;
    let cracker = cracker_for("needle");
    for length in 1usize..=13 {
        for place in 0..length {
            let words: Vec<String> = (0..length)
                .map(|n| if n == place { "needle".to_string() } else { format!("hay{}", n) })
                .collect();
            let wordlist = words.join("\n");
            for mode in every_mode(chunk_size) {
                assert_eq!(mode.process_wordlist(&wordlist, &cracker, &no_rules()), some("needle"));
            }
        }
    }
}

#[test]
fn a_single_line_with_the_word_gives_the_word() {
    for word in ["a", "password123", "two words", "пароль", "new-line-free", "x\ty"] {
        let cracker = cracker_for(word);
        for rules in [no_rules(), parse_rules(&strings(&["all"])).unwrap()] {
            for mode in every_mode(CHUNK_SIZE) {
                assert_eq!(mode.process_wordlist(word, &cracker, &rules), some(word));
                let ended = format!("{}\n", word);
                assert_eq!(mode.process_wordlist(&ended, &cracker, &rules), some(word));
            }
        }
    }
}

#[test]
fn a_wordlist_without_the_word_gives_nothing() {
    let cracker = cracker_for("password123");
    let rules = parse_rules(&strings(&["all"])).unwrap();
    for length in [0usize, 1, 2, 7, 100] {
        let words: Vec<String> = (0..length).map(|n| format!("guess{}", n)).collect();
        let wordlist = words.join("\n");
        for mode in every_mode(3) {
            assert_eq!(mode.process_wordlist(&wordlist, &cracker, &rules), None);
            assert_eq!(mode.process_wordlist(&wordlist, &cracker, &no_rules()), None);
        }
    }
}

#[test]
fn an_empty_wordlist_gives_nothing() {
    let rules = parse_rules(&strings(&["all"])).unwrap();
    for target in ["", "0", "password123"] {
        let cracker = cracker_for(target);
        for mode in every_mode(2) {
            assert_eq!(mode.process_wordlist("", &cracker, &no_rules()), None);
            assert_eq!(mode.process_wordlist("", &cracker, &rules), None);
        }
    }
}

#[test]
fn an_empty_line_gives_the_empty_word() {
    let cracker = cracker_for("");
    for wordlist in ["\n", "cat\n\ndog\n", "   \n", "cat\n \t "] {
        for mode in every_mode(2) {
            assert_eq!(mode.process_wordlist(wordlist, &cracker, &no_rules()), some(""));
        }
    }
    for mode in every_mode(2) {
        assert_eq!(mode.process_wordlist("cat\ndog\n", &cracker, &no_rules()), None);
    }
}

#[test]
fn an_empty_line_gives_what_the_rules_derive_from_the_empty_word() {
    let cracker = cracker_for("7");
    let rules = vec![MutationRule::PrependDigit];
    for mode in every_mode(2) {
        assert_eq!(mode.process_wordlist("cat\n\n", &cracker, &rules), some("7"));
        assert_eq!(mode.process_wordlist("cat\n", &cracker, &rules), None);
    }
}

#[test]
fn white_space_around_a_word_is_not_part_of_it() {
    let cracker = cracker_for("password123");
    for wordlist in [
        "  password123",
        "password123  \n",
        "hello\r\npassword123\r\nworld\r\n",
        "\t password123 \t\n",
        "hello\n\u{3000}password123\u{A0}",
    ] {
        for mode in every_mode(2) {
            assert_eq!(mode.process_wordlist(wordlist, &cracker, &no_rules()), some("password123"));
        }
    }
    let padded = cracker_for(" password123");
    for mode in every_mode(2) {
        assert_eq!(mode.process_wordlist(" password123\n", &padded, &no_rules()), None);
    }
}

#[test]
fn white_space_inside_a_word_is_part_of_it() {
    let cracker = cracker_for("pass word");
    for mode in every_mode(2) {
        assert_eq!(mode.process_wordlist(" pass word \n", &cracker, &no_rules()), some("pass word"));
        assert_eq!(mode.process_wordlist("password\n", &cracker, &no_rules()), None);
    }
}

#[test]
fn a_derived_candidate_is_found() {
    let wordlist = "dog\ncat\nbanana\nninja\n";
    let rules = parse_rules(&strings(&["all"])).unwrap();
    for word in ["cat7", "3dog", "b@n@n@", "n1nja", "ninj@", "banana"] {
        let cracker = cracker_for(word);
        for mode in every_mode(3) {
            assert_eq!(mode.process_wordlist(wordlist, &cracker, &rules), some(word));
            if word != "banana" {
                assert_eq!(mode.process_wordlist(wordlist, &cracker, &no_rules()), None);
            }
        }
    }
}

#[test]
fn rules_are_not_applied_to_derived_candidates() {
    let wordlist = "a\nninja\n";
    let rules = parse_rules(&strings(&["append", "replace_a", "replace_i"])).unwrap();
    for word in ["@0", "n1nj@", "a00", "ninja00"] {
        let cracker = cracker_for(word);
        for mode in every_mode(1) {
            assert_eq!(mode.process_wordlist(wordlist, &cracker, &rules), None);
        }
    }
}

#[test]
fn a_word_that_comes_twice_is_found() {
    let cracker = cracker_for("twice");
    for mode in every_mode(2) {
        assert_eq!(mode.process_wordlist("once\ntwice\ntwice\n", &cracker, &no_rules()), some("twice"));
    }
}

#[test]
fn chunks_of_size_nought_are_chunks_of_one_line() {
    let cracker = cracker_for("last");
    let mode = ThreadsPasswordMode::new(0);
    assert_eq!(mode.chunk_size(), 0);
    assert_eq!(mode.process_wordlist("first\nsecond\nlast", &cracker, &no_rules()), some("last"));
    assert_eq!(mode.process_wordlist("first\nsecond\n", &cracker, &no_rules()), None);
}

#[test]
fn a_long_wordlist_in_chunks() {
    let words: Vec<String> = (0..5000).map(|n| format!("candidate{}", n)).collect();
    let wordlist = words.join("\n");
    for word in ["candidate0", "candidate63", "candidate64", "candidate4999"] {
        let cracker = cracker_for(word);
        for chunk_size in [64usize, 1000, 4999, 5000, 5001] {
            let mode = ThreadsPasswordMode::new(chunk_size);
            assert_eq!(mode.process_wordlist(&wordlist, &cracker, &no_rules()), some(word));
        }
    }
    let cracker = cracker_for("candidate5000");
    let mode = ThreadsPasswordMode::new(64);
    assert_eq!(mode.process_wordlist(&wordlist, &cracker, &no_rules()), None);
    let rules = vec![MutationRule::AppendDigit];
    assert_eq!(mode.process_wordlist(&wordlist, &cracker, &rules), some("candidate5000"));
}

#[test]
fn the_modes_give_the_same_answer() {
    let wordlists = ["", "\n", "a", "a\n", "a\nb", " a \n\n b \n", "x\r\ny\r\n", "\n\na"];
    let rules = parse_rules(&strings(&["all"])).unwrap();
    for target in ["", "a", "b", "a1", "0b", "@", "y", "5", "none"] {
        let cracker = cracker_for(target);
        for wordlist in wordlists {
            let answers: Vec<Option<String>> = every_mode(2)
                .iter()
                .map(|mode| mode.process_wordlist(wordlist, &cracker, &rules))
                .collect();
            assert_eq!(answers[0], answers[1]);
            assert_eq!(answers[1], answers[2]);
        }
    }
}

#[test]
fn threads_mode_new_keeps_the_chunk_size() {
    assert_eq!(ThreadsPasswordMode::new(5).chunk_size(), 5);
    assert_eq!(ThreadsPasswordMode::new(usize::MAX).chunk_size(), usize::MAX);
}

#[test]
fn push_line_gathers_until_the_chunk_is_full() {
    let cracker = cracker_for("password123");
    let mode = ThreadsPasswordMode::new(3);
    let mut chunk: Vec<String> = Vec::new();
    assert_eq!(mode.push_line(&mut chunk, "one".to_string(), &cracker, &no_rules()), None);
    assert_eq!(chunk, strings(&["one"]));
    assert_eq!(mode.push_line(&mut chunk, "two".to_string(), &cracker, &no_rules()), None);
    assert_eq!(chunk, strings(&["one", "two"]));
    assert_eq!(mode.push_line(&mut chunk, "three".to_string(), &cracker, &no_rules()), None);
    assert_eq!(chunk, strings(&[]));
    assert_eq!(mode.push_line(&mut chunk, "four".to_string(), &cracker, &no_rules()), None);
    assert_eq!(chunk, strings(&["four"]));
}

#[test]
fn push_line_tests_a_word_only_when_the_chunk_is_full() {
    let cracker = cracker_for("password123");
    let mode = ThreadsPasswordMode::new(2);
    let mut chunk: Vec<String> = Vec::new();
    assert_eq!(mode.push_line(&mut chunk, " password123 ".to_string(), &cracker, &no_rules()), None);
    assert_eq!(chunk.len(), 1);
    let found = mode.push_line(&mut chunk, "other".to_string(), &cracker, &no_rules());
    assert_eq!(found, some("password123"));
    assert_eq!(chunk, strings(&[" password123 ", "other"]));
}

#[test]
fn process_chunk_tests_every_line_of_the_chunk() {
    let cracker = cracker_for("cat7");
    let rules = vec![MutationRule::AppendDigit];
    let mode = ThreadsPasswordMode::new(100);
    assert_eq!(mode.process_chunk(&[], &cracker, &rules), None);
    assert_eq!(mode.process_chunk(&strings(&["dog", "bird"]), &cracker, &rules), None);
    assert_eq!(mode.process_chunk(&strings(&["dog", "bird", " cat\n"]), &cracker, &rules), some("cat7"));
    assert_eq!(mode.process_chunk(&strings(&["cat", "dog", "bird"]), &cracker, &rules), some("cat7"));
    assert_eq!(mode.process_chunk(&strings(&["cat"]), &cracker, &no_rules()), None);
}

#[test]
fn lines_handed_over_one_by_one_give_the_answer_of_the_whole() {
    let wordlist = "hello\n  password123\t\nworld\n";
    let cracker = cracker_for("password123");
    let mut found = None;
    for line in wordlist.split_inclusive('\n') {
        found = LinePasswordMode.check_line(line, &cracker, &no_rules());
        if found.is_some() {
            break;
        }
    }
    assert_eq!(found, LinePasswordMode.process_wordlist(wordlist, &cracker, &no_rules()));
    assert_eq!(found, some("password123"));

    let mode = ThreadsPasswordMode::new(2);
    let mut chunk: Vec<String> = Vec::new();
    let mut found = None;
    for line in wordlist.lines() {
        found = mode.push_line(&mut chunk, line.to_string(), &cracker, &no_rules());
        if found.is_some() {
            break;
        }
    }
    if found.is_none() {
        found = mode.process_chunk(&chunk, &cracker, &no_rules());
    }
    assert_eq!(found, mode.process_wordlist(wordlist, &cracker, &no_rules()));
}

#[test]
fn check_line_trims_and_apply_rules_does_not() {
    let cracker = cracker_for("cat");
    assert_eq!(MemPasswordMode.check_line(" cat\n", &cracker, &no_rules()), some("cat"));
    assert_eq!(
        MemPasswordMode.apply_rules_and_check_password(" cat\n", &cracker, &no_rules()),
        None
    );
    assert_eq!(MemPasswordMode.apply_rules_and_check_password("cat", &cracker, &no_rules()), some("cat"));
}

#[test]
fn apply_rules_and_check_password_finds_the_word_and_its_variants() {
    let rules = parse_rules(&strings(&["all"])).unwrap();
    for (target, expected) in [
        ("mia", true),
        ("mia0", true),
        ("mia9", true),
        ("0mia", true),
        ("mi@", true),
        ("m1a", true),
        ("m1@", false),
        ("mia10", false),
        ("", false),
    ] {
        let cracker = cracker_for(target);
        let found = LinePasswordMode.apply_rules_and_check_password("mia", &cracker, &rules);
        if expected {
            assert_eq!(found, some(target));
        } else {
            assert_eq!(found, None);
        }
    }
}

#[test]
fn check_lines_walks_the_lines_in_their_order() {
    let rules = vec![MutationRule::ReplaceLetterA];
    let lines = strings(&["alpha", " beta ", "gamma\n"]);
    assert_eq!(MemPasswordMode.check_lines(&lines, &cracker_for("bet@"), &rules), some("bet@"));
    assert_eq!(MemPasswordMode.check_lines(&lines, &cracker_for("gamma"), &rules), some("gamma"));
    assert_eq!(MemPasswordMode.check_lines(&lines, &cracker_for("delta"), &rules), None);
    assert_eq!(MemPasswordMode.check_lines(&[], &cracker_for(""), &rules), None);
}

#[test]
fn from_str_knows_three_modes() {
    assert!(matches!(PasswordMode::from_str("mem"), Ok(PasswordMode::Mem(_))));
    assert!(matches!(PasswordMode::from_str("line"), Ok(PasswordMode::Line(_))));
    match PasswordMode::from_str("threads") {
        Ok(PasswordMode::Threads(mode)) => assert_eq!(mode.chunk_size(), CHUNK_SIZE),
        _ => panic!("threads is the name of a mode"),
    }
}

#[test]
fn from_str_hands_back_an_unknown_name() {
    for name in ["", "Mem", "memory", "lines", "thread", "threads ", "gpu"] {
        match PasswordMode::from_str(name) {
            Err(error) => assert_eq!(error, CrackError::InvalidMode(name.to_string())),
            Ok(_) => panic!("{} is not the name of a mode", name),
        }
    }
}

#[test]
fn the_names_of_the_modes() {
    assert_eq!(PasswordMode::from_str("mem").unwrap().name(), "Mem");
    assert_eq!(PasswordMode::from_str("line").unwrap().name(), "Line");
    assert_eq!(PasswordMode::from_str("threads").unwrap().name(), "Threads");
}
