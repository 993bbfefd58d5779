use data_loader::{SentenceType, VocabError, Vocabulary};

#[test]
fn test_vocab() {
    let texts = [
        ("This is an example. 这是一个例子。", SentenceType::English),
        ("这是一个例子。", SentenceType::Chinese),
    ];

    for item in texts {
        let mut vocab = Vocabulary::new(&item.0, item.1).unwrap();
        let token_ids = vocab.encode(&item.0).unwrap();

        println!("\ntokens len: {}", vocab.len());
        println!("{:?}", token_ids);

        let text = vocab.decode(&token_ids).unwrap();
        println!("{text}");

        assert_eq!(item.0, text);
    }

    println!();
}

#[test]
fn chinese_reserved_tokens_come_first() {
    let vocab = Vocabulary::new("", SentenceType::Chinese).unwrap();
    assert_eq!(vocab.len(), 3);
    assert_eq!(vocab.decode(&[0, 1, 2]).unwrap(), "<unk><pad><eof>");
}

#[test]
fn chinese_words_get_ids_in_ascending_order() {
    let mut vocab = Vocabulary::new("b a", SentenceType::Chinese).unwrap();
    let a = vocab.encode("a").unwrap();
    let b = vocab.encode("b").unwrap();
    assert_eq!(a.len(), 1);
    assert_eq!(b.len(), 1);
    assert!(a[0] >= 3);
    assert!(a[0] < b[0]);
}

#[test]
fn chinese_unknown_word_maps_to_unknown_id() {
    let mut vocab = Vocabulary::new("a", SentenceType::Chinese).unwrap();
    assert_eq!(vocab.len(), 4);
    assert_eq!(vocab.encode("z").unwrap(), vec![0]);
    assert_eq!(vocab.encode("a").unwrap(), vec![3]);
}

#[test]
fn chinese_decode_skips_unknown_ids() {
    let vocab = Vocabulary::new("a", SentenceType::Chinese).unwrap();
    assert_eq!(vocab.decode(&[3, 99, 3]).unwrap(), "aa");
    assert_eq!(vocab.decode(&[]).unwrap(), "");
}

#[test]
fn english_encode_records_largest_id() {
    let mut vocab = Vocabulary::new("", SentenceType::English).unwrap();
    assert_eq!(vocab.len(), 0);
    let ids = vocab.encode("hello world").unwrap();
    assert!(!ids.is_empty());
    assert_eq!(vocab.len(), *ids.iter().max().unwrap());
    assert_eq!(vocab.decode(&ids).unwrap(), "hello world");
}

#[test]
fn english_empty_text_is_an_error() {
    let mut vocab = Vocabulary::new("", SentenceType::English).unwrap();
    assert_eq!(vocab.encode(""), Err(VocabError::EmptyEncoding));
    assert_eq!(vocab.len(), 0);
}

#[test]
fn accept_ids_exact() {
    let mut vocab = Vocabulary::new("", SentenceType::English).unwrap();
    assert_eq!(vocab.accept_ids(&vec![5, 9, 2]), Ok(vec![5, 9, 2]));
    assert_eq!(vocab.len(), 9);
    assert_eq!(vocab.accept_ids(&vec![]), Err(VocabError::EmptyEncoding));
    assert_eq!(vocab.len(), 9);
}
