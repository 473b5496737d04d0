//! Calibration corpora.
use lfm25_inference::engine::corpus::{
    calibration_sequences, calibration_text_from_line, choose_row_text, decode_sample_positions,
    has_enough_tokens, CorpusError,
};

#[test]
fn calibration_corpus_supports_text_and_jsonl() {
    assert_eq!(
        calibration_text_from_line("  hello  ").unwrap(),
        Some("hello".into())
    );
    assert_eq!(
        calibration_text_from_line(r#"{"text":"world"}"#).unwrap(),
        Some("world".into())
    );
    assert_eq!(calibration_text_from_line("  ").unwrap(), None);
    assert_eq!(
        calibration_text_from_line(r#""ordinary quoted prose without a closing JSON quote"#)
            .unwrap(),
        Some(r#""ordinary quoted prose without a closing JSON quote"#.into())
    );
    assert!(calibration_text_from_line(r#"{"id":1}"#).is_err());
}

#[test]
fn json_rows_and_strings_are_decoded() {
    assert_eq!(
        calibration_text_from_line(r#" {"prompt":"p\né"} "#).unwrap(),
        Some("p\n\u{e9}".into())
    );
    assert_eq!(
        calibration_text_from_line(r#"{"prompt":"p","text":"t"}"#).unwrap(),
        Some("t".into())
    );
    assert_eq!(
        calibration_text_from_line(r#"{"prompt":"p","text":7}"#).unwrap_err(),
        CorpusError::MissingText
    );
    assert_eq!(
        calibration_text_from_line(r#"{"text":"#).unwrap_err(),
        CorpusError::InvalidJson
    );
    assert_eq!(
        calibration_text_from_line(r#""quoted \"inside\"""#).unwrap(),
        Some("quoted \"inside\"".into())
    );
    assert_eq!(calibration_text_from_line("[1, 2]").unwrap(), Some("[1, 2]".into()));
}

#[test]
fn row_texts_are_chosen_from_members() {
    assert_eq!(choose_row_text(Some(Some("t")), Some(Some("p"))).unwrap(), "t");
    assert_eq!(choose_row_text(None, Some(Some("p"))).unwrap(), "p");
    assert_eq!(choose_row_text(Some(None), Some(Some("p"))).unwrap_err(), CorpusError::MissingText);
    assert_eq!(choose_row_text(None, Some(None)).unwrap_err(), CorpusError::MissingText);
    assert_eq!(choose_row_text(None, None).unwrap_err(), CorpusError::MissingText);
}

#[test]
fn sequences_have_mixed_lengths_and_follow_each_other() {
    let stream: Vec<u32> = (0..20_000).collect();
    let lines = vec![stream[..9_000].to_vec(), stream[9_000..].to_vec()];
    let sequences = calibration_sequences(&lines, 1, 25, 700).unwrap();
    assert_eq!(sequences.len(), 25);
    let mut offset = 0;
    for (index, sequence) in sequences.iter().enumerate() {
        let nominal = match index % 20 {
            0..=4 => 96,
            5..=11 => 192,
            12..=16 => 384,
            _ => 768,
        };
        assert_eq!(sequence.len(), nominal.min(700));
        assert_eq!(sequence[0], 1);
        assert_eq!(sequence[1..], stream[offset..offset + sequence.len() - 1]);
        offset += sequence.len() - 1;
    }
}

#[test]
fn a_short_corpus_gives_fewer_sequences() {
    let lines = vec![(0..100).collect::<Vec<u32>>(), (100..200).collect::<Vec<u32>>()];
    let sequences = calibration_sequences(&lines, 9, 10, 64).unwrap();
    assert_eq!(sequences.len(), 3);
    assert_eq!(sequences[2][1], 126);
    assert!(calibration_sequences(&vec![], 9, 10, 64).unwrap().is_empty());
    assert_eq!(
        calibration_sequences(&lines, 9, 10, 63).unwrap_err(),
        CorpusError::SequencesTooShort
    );
    assert_eq!(
        calibration_sequences(&lines, 9, usize::MAX, 64).unwrap_err(),
        CorpusError::TargetOverflow
    );
}

#[test]
fn reading_stops_at_the_target() {
    assert_eq!(has_enough_tokens(127, 2, 64), Ok(false));
    assert_eq!(has_enough_tokens(128, 2, 64), Ok(true));
    assert_eq!(has_enough_tokens(0, usize::MAX, 2), Err(CorpusError::TargetOverflow));
    // The second line is not needed, and not cut from.
    let lines = vec![vec![5u32; 70], vec![6u32; 500]];
    let sequences = calibration_sequences(&lines, 0, 1, 64).unwrap();
    assert_eq!(sequences, vec![[vec![0], vec![5; 63]].concat()]);
}

#[test]
fn sampled_positions_are_spread_evenly() {
    assert_eq!(decode_sample_positions(96, 8), vec![1, 14, 27, 41, 54, 68, 81, 95]);
    assert_eq!(decode_sample_positions(4, 8), vec![1, 2, 3]);
    assert_eq!(decode_sample_positions(10, 1), vec![9]);
    assert_eq!(decode_sample_positions(2, 4), vec![1]);
    assert!(decode_sample_positions(1, 4).is_empty());
    assert!(decode_sample_positions(100, 0).is_empty());
}
