use salad::phrase::{begin_phrase, supply_ranks, Pending, Phrase, Prefs, Step};
use salad::problem::Problem;

fn to_lines(entries: &[&str]) -> Vec<Vec<u8>> {
    entries.iter().map(|e| e.as_bytes().to_vec()).collect()
}

fn letter(c: char) -> Vec<u8> {
    let mut buf = [0u8; 4];
    c.encode_utf8(&mut buf).as_bytes().to_vec()
}

fn prefs(max: u8, min: u8, num: u8, phrase: Phrase) -> Prefs {
    Prefs { max_chars: max, min_chars: min, num_words: num, phrase }
}

fn finish(lines: &Vec<Vec<u8>>, p: &Prefs, pending: Pending, ranks: &Vec<u32>) -> Vec<Vec<u8>> {
    match supply_ranks(lines, p, pending, ranks).unwrap() {
        Step::Done(ws) => ws,
        Step::NeedRanks(_) => panic!("expected a finished phrase"),
    }
}

#[test]
fn random_mode_reuses_one_count_for_every_word() {
    // Exactly five matching words; three requested words share the count.
    let lines = to_lines(&["cat", "dog", "eel", "fig", "owl", "x", "elephant"]);
    let p = prefs(3, 3, 3, Phrase::Random);
    let pending = begin_phrase(&lines, &p).unwrap();
    assert!(pending.last_stage);
    assert_eq!(pending.maxes, vec![4, 4, 4]);
    assert!(pending.starting_chars.is_empty());
    let ws = finish(&lines, &p, pending, &vec![0, 2, 2]);
    assert_eq!(
        ws,
        vec![b"cat".to_vec(), b"eel".to_vec(), b"eel".to_vec()]
    );
}

#[test]
fn fixed_mnemonic_selects_one_word_per_letter() {
    let lines = to_lines(&["cat", "cow", "dog", "fig", "fox"]);
    let p = prefs(3, 3, 0, Phrase::FixedMnemonic(b"cf".to_vec()));
    let pending = begin_phrase(&lines, &p).unwrap();
    assert!(pending.last_stage);
    assert_eq!(pending.maxes, vec![1, 1]);
    assert_eq!(pending.starting_chars, vec![letter('c'), letter('f')]);
    let ws = finish(&lines, &p, pending, &vec![1, 0]);
    assert_eq!(ws, vec![b"cow".to_vec(), b"fig".to_vec()]);
}

#[test]
fn fixed_mnemonic_missing_letter_fails_whole_request() {
    // Words starting with 'o' exist in range, none with 'k': the request
    // fails outright instead of yielding a partial one-word phrase.
    let lines = to_lines(&["oak", "opal", "kilogram"]);
    let p = prefs(4, 2, 0, Phrase::FixedMnemonic(b"ok".to_vec()));
    assert!(matches!(
        begin_phrase(&lines, &p),
        Err(Problem::NoMatchingWords)
    ));
}

#[test]
fn dynamic_mnemonic_runs_two_stages() {
    let lines = to_lines(&["ab", "apple", "bread", "cameo"]);
    let p = prefs(5, 5, 2, Phrase::DynamicMnemonic);
    let pending = begin_phrase(&lines, &p).unwrap();
    // Seed stage: a single word whose length equals the word count.
    assert!(!pending.last_stage);
    assert_eq!(pending.min_chars, 2);
    assert_eq!(pending.max_chars, 2);
    assert_eq!(pending.maxes, vec![0]);
    let second = match supply_ranks(&lines, &p, pending, &vec![0]).unwrap() {
        Step::NeedRanks(second) => second,
        Step::Done(_) => panic!("expected a second stage"),
    };
    // The seed word "ab" became the mnemonic for the real length bounds.
    assert!(second.last_stage);
    assert_eq!(second.starting_chars, vec![letter('a'), letter('b')]);
    assert_eq!(second.min_chars, 5);
    assert_eq!(second.max_chars, 5);
    assert_eq!(second.maxes, vec![0, 0]);
    let ws = finish(&lines, &p, second, &vec![0, 0]);
    assert_eq!(ws, vec![b"apple".to_vec(), b"bread".to_vec()]);
}

#[test]
fn dynamic_mnemonic_without_seed_word_fails() {
    let lines = to_lines(&["apple", "bread"]);
    let p = prefs(5, 5, 3, Phrase::DynamicMnemonic);
    assert!(matches!(
        begin_phrase(&lines, &p),
        Err(Problem::NoMatchingWords)
    ));
}

#[test]
fn out_of_range_rank_fails_fetch() {
    let lines = to_lines(&["cat", "dog"]);
    let p = prefs(3, 3, 1, Phrase::Random);
    let pending = begin_phrase(&lines, &p).unwrap();
    assert_eq!(pending.maxes, vec![1]);
    assert!(matches!(
        supply_ranks(&lines, &p, pending, &vec![2]),
        Err(Problem::UnexpectedEndOfWordFile)
    ));
}

#[test]
fn empty_mnemonic_gives_one_unconstrained_word() {
    let lines = to_lines(&["cat", "dog"]);
    let p = prefs(3, 3, 0, Phrase::FixedMnemonic(Vec::new()));
    let pending = begin_phrase(&lines, &p).unwrap();
    assert_eq!(pending.maxes, vec![1]);
    let ws = finish(&lines, &p, pending, &vec![1]);
    assert_eq!(ws, vec![b"dog".to_vec()]);
}

#[test]
fn fixed_mnemonic_may_hold_accented_letters() {
    let lines = to_lines(&["étoile", "ève", "mer"]);
    let p = prefs(9, 3, 0, Phrase::FixedMnemonic("ém".as_bytes().to_vec()));
    let pending = begin_phrase(&lines, &p).unwrap();
    assert_eq!(pending.starting_chars, vec![letter('é'), letter('m')]);
    assert_eq!(pending.maxes, vec![0, 0]);
    let ws = finish(&lines, &p, pending, &vec![0, 0]);
    assert_eq!(
        ws,
        vec!["étoile".as_bytes().to_vec(), b"mer".to_vec()]
    );
}

#[test]
fn dynamic_mnemonic_accepts_accented_seed() {
    // The seed word is picked by byte length; its characters, not its
    // bytes, become the mnemonic.
    let lines = to_lines(&["éz", "état", "zone"]);
    let p = prefs(6, 4, 3, Phrase::DynamicMnemonic);
    let pending = begin_phrase(&lines, &p).unwrap();
    assert!(!pending.last_stage);
    assert_eq!(pending.maxes, vec![0]);
    let second = match supply_ranks(&lines, &p, pending, &vec![0]).unwrap() {
        Step::NeedRanks(second) => second,
        Step::Done(_) => panic!("expected a second stage"),
    };
    assert_eq!(second.starting_chars, vec![letter('é'), letter('z')]);
    let ws = finish(&lines, &p, second, &vec![0, 0]);
    assert_eq!(ws, vec!["état".as_bytes().to_vec(), b"zone".to_vec()]);
}
