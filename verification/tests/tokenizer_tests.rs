use caret::tokenizer::{token_offsets, token_segments, Segment, TiktokenEncoding, TokenizerType};

#[test]
fn test_tokenizer_type_parsing() {
    assert_eq!(TokenizerType::from_str("tiktoken"), Some(TokenizerType::Tiktoken));
    assert_eq!(TokenizerType::from_str("huggingface"), Some(TokenizerType::HuggingFace));
    assert_eq!(TokenizerType::from_str("gpt2"), Some(TokenizerType::Gpt2));
    assert_eq!(TokenizerType::from_str("unknown"), None);
}

#[test]
fn test_encoding_parsing() {
    assert_eq!(TiktokenEncoding::from_str("cl100k_base"), Some(TiktokenEncoding::Cl100kBase));
    assert_eq!(TiktokenEncoding::from_str("p50k_base"), Some(TiktokenEncoding::P50kBase));
    assert_eq!(TiktokenEncoding::from_str("r50k_base"), Some(TiktokenEncoding::R50kBase));
}

#[test]
fn test_tokenizer_aliases() {
    assert_eq!(TokenizerType::from_str("TK"), Some(TokenizerType::Tiktoken));
    assert_eq!(TokenizerType::from_str("OpenAI"), Some(TokenizerType::Tiktoken));
    assert_eq!(TokenizerType::from_str("hf"), Some(TokenizerType::HuggingFace));
    assert_eq!(TokenizerType::from_str("Llama"), Some(TokenizerType::HuggingFace));
    assert_eq!(TokenizerType::from_str("GPT-2"), Some(TokenizerType::Gpt2));
    assert_eq!(TokenizerType::from_str("legacy"), Some(TokenizerType::Gpt2));
    assert_eq!(TokenizerType::for_name("TK"), None);
    assert_eq!(TokenizerType::default(), TokenizerType::Tiktoken);
    assert_eq!(TiktokenEncoding::from_str("GPT4"), Some(TiktokenEncoding::Cl100kBase));
    assert_eq!(TiktokenEncoding::from_str("codex"), Some(TiktokenEncoding::P50kBase));
    assert_eq!(TiktokenEncoding::from_str("r50k"), Some(TiktokenEncoding::R50kBase));
    assert_eq!(TiktokenEncoding::from_str("gpt5"), None);
    assert_eq!(TiktokenEncoding::for_name("CL100K"), None);
    assert_eq!(TiktokenEncoding::default(), TiktokenEncoding::Cl100kBase);
}

#[test]
fn test_token_offsets() {
    assert_eq!(token_offsets(&vec![5, 1, 6, 1], 13), vec![(0, 5), (5, 6), (6, 12), (12, 13)]);
    assert_eq!(token_offsets(&vec![5, 9, 3, 0, 6], 8), vec![(0, 5), (5, 8), (8, 8)]);
    assert_eq!(token_offsets(&vec![], 8), Vec::<(usize, usize)>::new());
    assert_eq!(token_offsets(&vec![1, usize::MAX, 1], 2), vec![(0, 1), (1, 2)]);
    assert_eq!(token_offsets(&vec![1], 0), Vec::<(usize, usize)>::new());
}

#[test]
fn test_token_segments() {
    let seg = |start, end, color| Segment { start, end, color };
    assert_eq!(
        token_segments(&vec![(0, 5), (5, 6), (8, 12), (12, 13), (13, 14)], 20),
        vec![
            seg(0, 5, Some(0)),
            seg(5, 6, Some(1)),
            seg(6, 8, None),
            seg(8, 12, Some(2)),
            seg(12, 13, Some(3)),
            seg(13, 14, Some(0)),
            seg(14, 20, None),
        ]
    );
    assert_eq!(token_segments(&vec![(2, 4)], 4), vec![seg(0, 2, None), seg(2, 4, Some(0))]);
    assert_eq!(token_segments(&vec![], 3), vec![seg(0, 3, None)]);
    assert_eq!(token_segments(&vec![], 0), Vec::<Segment>::new());
}
