use crlib::{splitft, Token};

fn word_of(t: &Token) -> Vec<u8> {
    let end = t.word.iter().position(|&b| b == 0).unwrap();
    t.word[..end].to_vec()
}

#[test]
fn splits_sentence_into_words() {
    let input = b"rust programming language\0";
    let mut pos = 0usize;
    let mut words: Vec<Vec<u8>> = Vec::new();
    loop {
        let t = splitft(&input[pos..]);
        let w = word_of(&t);
        if w.is_empty() {
            break;
        }
        words.push(w);
        pos += t.rest;
    }
    assert_eq!(
        words,
        vec![b"rust".to_vec(), b"programming".to_vec(), b"language".to_vec()]
    );
    assert_eq!(pos, input.len() - 1);
}

#[test]
fn first_word_and_rest() {
    let t = splitft(b"ab cd\0");
    assert_eq!(word_of(&t), b"ab".to_vec());
    assert_eq!(t.rest, 3);
}

#[test]
fn only_one_space_is_skipped() {
    let t = splitft(b"ab  cd\0");
    assert_eq!(t.rest, 3);
    let t2 = splitft(&b"ab  cd\0"[3..]);
    assert_eq!(word_of(&t2), Vec::<u8>::new());
    assert_eq!(t2.rest, 1);
}

#[test]
fn empty_input_gives_empty_word() {
    let t = splitft(b"\0");
    assert_eq!(t.word[0], 0);
    assert_eq!(t.rest, 0);
    let t2 = splitft(b"");
    assert_eq!(t2.word[0], 0);
    assert_eq!(t2.rest, 0);
}

#[test]
fn long_word_is_cut_at_63_bytes() {
    let mut input = vec![b'a'; 100];
    input.push(0);
    let t = splitft(&input);
    assert_eq!(word_of(&t), vec![b'a'; 63]);
    assert_eq!(t.word[63], 0);
    assert_eq!(t.rest, 63);
}

#[test]
fn word_of_exactly_63_bytes_then_space() {
    let mut input = vec![b'z'; 63];
    input.extend_from_slice(b" next\0");
    let t = splitft(&input);
    assert_eq!(word_of(&t), vec![b'z'; 63]);
    assert_eq!(t.rest, 64);
}

#[test]
fn buffer_after_terminator_is_zeroed() {
    let t = splitft(b"xy\0");
    assert_eq!(&t.word[..3], b"xy\0");
    assert!(t.word[3..].iter().all(|&b| b == 0));
}
