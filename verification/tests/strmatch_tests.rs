use disasm::strmatch::{distance, tokenize, Tokenizer};

fn toks(s: &str) -> Vec<String> {
    tokenize(s, true)
}

#[test]
fn tokenizer_groups_identifiers_and_paths() {
    let t = tokenize("pow::my_pow", true);
    assert_eq!(t, vec!["pow".to_string(), "::".to_string(), "my_pow".to_string()]);
}

#[test]
fn tokenizer_groups_numbers_with_underscores() {
    let t = tokenize("abc 12_3x", true);
    assert_eq!(
        t,
        vec![
            "abc".to_string(),
            " ".to_string(),
            "12_3".to_string(),
            "x".to_string()
        ]
    );
}

#[test]
fn tokenizer_single_chars_for_punctuation() {
    let t = tokenize("a+b", true);
    assert_eq!(t, vec!["a".to_string(), "+".to_string(), "b".to_string()]);
}

#[test]
fn tokenizer_normalizes_whitespace_runs() {
    let t = tokenize("a \t b", true);
    assert_eq!(t, vec!["a".to_string(), " ".to_string(), "b".to_string()]);
}

#[test]
fn tokenizer_concat_reproduces_input_without_normalization() {
    // the tokenizer is lossless when whitespace is kept verbatim
    for s in ["pow::my_pow", "a  +  b\t", "cmp dword ptr [rax + 4], 0x12"] {
        let t = tokenize(s, false);
        let joined: String = t.concat();
        assert_eq!(joined, s);
    }
}

#[test]
fn tokenizer_concat_reproduces_single_spaced_input() {
    // with normalization the reproduction holds as long as whitespace
    // is already single spaces
    let s = "cmp eax, 1";
    assert_eq!(tokenize(s, true).concat(), s);
    // a run of whitespace deliberately collapses
    assert_eq!(tokenize("a  b", true).concat(), "a b");
}

#[test]
fn tokenizer_iterates_like_collecting() {
    let mut it = Tokenizer::new("x::y");
    let mut got: Vec<String> = Vec::new();
    while let Some(t) = it.next_token() {
        got.push(t.to_string());
    }
    assert_eq!(got, tokenize("x::y", true));
}

#[test]
fn distance_zero_iff_contiguous_prefix() {
    // zero distance exactly when the query is a contiguous prefix
    let q = toks("my_pow");
    assert_eq!(distance(&q, &toks("my_pow::extra"), u32::MAX), Some(0));
    assert_eq!(distance(&q, &toks("pow::my_pow"), u32::MAX), Some(2));
    assert_ne!(distance(&q, &toks("pow::my_pow"), u32::MAX), Some(0));
}

#[test]
fn distance_counts_skipped_tokens() {
    let q = toks("my_pow");
    let s = toks("pow::my_pow");
    // "pow" and "::" must be skipped before "my_pow" matches
    assert_eq!(distance(&q, &s, u32::MAX), Some(2));
}

#[test]
fn distance_none_when_token_missing() {
    let q = toks("absent");
    let s = toks("pow::my_pow");
    assert_eq!(distance(&q, &s, u32::MAX), None);
}

#[test]
fn distance_respects_bound() {
    let q = toks("my_pow");
    let s = toks("pow::my_pow");
    assert_eq!(distance(&q, &s, 1), None);
    assert_eq!(distance(&q, &s, 2), Some(2));
}

#[test]
fn distance_monotonic_under_insertion() {
    // inserting a token that occurs nowhere in the query never
    // decreases the distance
    let q = toks("a::b");
    let s = toks("a::b");
    let grown = toks("a::zzz::b");
    let d0 = distance(&q, &s, u32::MAX).unwrap();
    let d1 = distance(&q, &grown, u32::MAX).unwrap();
    assert!(d1 >= d0);
}
