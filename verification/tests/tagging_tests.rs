use fast_record::columns::ColumnData;
use fast_record::errors::BuildError;
use fast_record::tagging::TaggingArgs;
use fast_record::tagging::TaggingBuilder;
use fast_record::tagging::TaggingRecord;
use fast_record::tagging::TaggingSample;
use fast_record::traits::IDataset;

fn args(max_length: usize) -> TaggingArgs {
    TaggingArgs {
        path: ".".to_string(),
        output_path: None,
        with_vocab: false,
        max_vocab_size: 10000,
        sequence_length: max_length,
        stopwords_file: None,
        separator: "\t".to_string(),
        unknown: "<UNK>".to_string(),
        padding: "<PAD>".to_string(),
        padding_tag: "NONE".to_string(),
    }
}

fn strings(v: &[&str]) -> Vec<String> {
    v.iter().map(|s| s.to_string()).collect()
}

#[test]
fn groups_are_delimited_by_blank_lines() {
    let b = TaggingBuilder::new(args(4));
    let samples = b
        .read_dataset(&strings(&["he\tB", "runs\tI", "", "she\tB"]))
        .unwrap();
    assert_eq!(samples.len(), 2);
    assert_eq!(samples[0].tokens, strings(&["he", "runs"]));
    assert_eq!(samples[0].tags, strings(&["B", "I"]));
    assert_eq!(samples[1].tokens, strings(&["she"]));
}

#[test]
fn lines_without_the_separator_are_dropped_from_their_group() {
    let b = TaggingBuilder::new(args(4));
    let samples = b.read_dataset(&strings(&["a\tB", "noise", "b\tI"])).unwrap();
    assert_eq!(samples.len(), 1);
    assert_eq!(samples[0].tokens, strings(&["a", "b"]));
}

#[test]
fn trailing_blank_line_yields_an_empty_sample() {
    let b = TaggingBuilder::new(args(2));
    let samples = b.read_dataset(&strings(&["a\tB", ""])).unwrap();
    assert_eq!(samples.len(), 2);
    assert_eq!(samples[1].tokens.len(), 0);
}

#[test]
fn vocabulary_and_tag_table_reserve_their_special_ids() {
    let mut b = TaggingBuilder::new(args(4));
    let train = b.read_dataset(&strings(&["he\tB", "runs\tI", "", "she\tB"])).unwrap();
    b.init(&train);
    assert_eq!(b.vocab, strings(&["<PAD>", "he", "runs", "she", "<UNK>"]));
    assert_eq!(b.tags, strings(&["NONE", "B", "I"]));
}

#[test]
fn encodes_tokens_and_tags_aligned_and_padded() {
    let mut b = TaggingBuilder::new(args(4));
    let train = b.read_dataset(&strings(&["he\tB", "runs\tI"])).unwrap();
    b.init(&train);
    let recs = b.build_dataset(train).unwrap();
    assert_eq!(recs.len(), 1);
    assert_eq!(recs[0].token_ids, vec![1, 2, 0, 0]);
    assert_eq!(recs[0].tag_ids, vec![1, 2, 0, 0]);
}

#[test]
fn unseen_token_gets_unknown_id_and_unseen_tag_gets_padding_id() {
    let mut b = TaggingBuilder::new(args(3));
    let train = b.read_dataset(&strings(&["he\tB"])).unwrap();
    b.init(&train);
    // vocab: <PAD>, he, <UNK>; tags: NONE, B
    let dev = b.read_dataset(&strings(&["she\tO"])).unwrap();
    let recs = b.build_dataset(dev).unwrap();
    assert_eq!(recs[0].token_ids, vec![2, 0, 0]);
    assert_eq!(recs[0].tag_ids, vec![0, 0, 0]);
}

#[test]
fn sample_longer_than_max_length_fails_fatally() {
    let mut b = TaggingBuilder::new(args(4));
    let train = b.read_dataset(&strings(&["a\tB"])).unwrap();
    b.init(&train);
    let five = b
        .read_dataset(&strings(&["t1\tB", "t2\tI", "t3\tI", "t4\tI", "t5\tI"]))
        .unwrap();
    assert_eq!(five[0].tokens.len(), 5);
    assert_eq!(b.build_dataset(five).unwrap_err(), BuildError::SequenceTooLong);
}

#[test]
fn record_new_refuses_overlength_and_pads_otherwise() {
    let r = TaggingRecord::new(vec![1, 2], vec![3, 4], 4).unwrap();
    assert_eq!(r.token_ids, vec![1, 2, 0, 0]);
    assert_eq!(r.tag_ids, vec![3, 4, 0, 0]);
    let e = TaggingRecord::new(vec![1, 2, 3, 4, 5], vec![1, 2, 3, 4, 5], 4).unwrap_err();
    assert_eq!(e, BuildError::SequenceTooLong);
}

#[test]
fn tagging_sample_new_keeps_fields() {
    let s = TaggingSample::new(strings(&["a"]), strings(&["B"]));
    assert_eq!(s.tokens, strings(&["a"]));
    assert_eq!(s.tags, strings(&["B"]));
}

#[test]
fn split_data_interleaves_word_and_tag_columns() {
    let mut b = TaggingBuilder::new(args(2));
    let train = b.read_dataset(&strings(&["he\tB", "runs\tI"])).unwrap();
    b.init(&train);
    let recs = b.build_dataset(train).unwrap();
    let sd = b.save_dataset(&recs).unwrap();
    assert_eq!(sd.fields.len(), 4);
    assert_eq!(sd.fields[0].name, "word_0");
    assert!(sd.fields[0].wide);
    assert_eq!(sd.fields[1].name, "tag_0");
    assert!(!sd.fields[1].wide);
    assert_eq!(sd.fields[2].name, "word_1");
    assert_eq!(sd.fields[3].name, "tag_1");
    assert_eq!(sd.batches.len(), 1);
    let batch = &sd.batches[0];
    assert_eq!(batch.columns.len(), 4);
    match &batch.columns[0] {
        ColumnData::U32(v) => assert_eq!(v, &vec![1u32]),
        ColumnData::U8(_) => panic!("expected a wide column"),
    }
    match &batch.columns[1] {
        ColumnData::U8(v) => assert_eq!(v, &vec![1u8]),
        ColumnData::U32(_) => panic!("expected a narrow column"),
    }
}

#[test]
fn tag_id_over_eight_bits_is_refused_at_serialization() {
    let b = TaggingBuilder::new(args(2));
    let recs = vec![TaggingRecord::new(vec![1], vec![300], 2).unwrap()];
    assert_eq!(b.save_dataset(&recs).unwrap_err(), BuildError::LabelTooWide);
}

#[test]
fn tagging_vocab_lines_are_id_tab_token() {
    let mut b = TaggingBuilder::new(args(2));
    let train = b.read_dataset(&strings(&["a\tB"])).unwrap();
    b.init(&train);
    assert_eq!(b.save_vocab(), strings(&["0\t<PAD>", "1\ta", "2\t<UNK>"]));
}
