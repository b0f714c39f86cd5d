use fast_record::classifier::ClassifierArgs;
use fast_record::classifier::ClassifierBuilder;
use fast_record::classifier::ClassifierRecord;
use fast_record::classifier::ClassifierSample;
use fast_record::columns::ColumnData;
use fast_record::errors::BuildError;
use fast_record::traits::IDataset;
use fast_record::traits::build_all;

fn args(max_length: usize) -> ClassifierArgs {
    ClassifierArgs {
        path: ".".to_string(),
        output_path: None,
        with_vocab: false,
        max_vocab_size: 10000,
        sequence_length: max_length,
        stopwords_file: None,
        with_label_id: false,
        with_lang_en: false,
        separator: "\t".to_string(),
        unknown: "<UNK>".to_string(),
        padding: "<PAD>".to_string(),
    }
}

fn strings(v: &[&str]) -> Vec<String> {
    v.iter().map(|s| s.to_string()).collect()
}

#[test]
fn char_mode_training_example() {
    let mut b = ClassifierBuilder::new(args(4));
    b.load_classes(&strings(&["pos", "neg"]));
    let train = b.read_dataset(&strings(&["ab\tpos"])).unwrap();
    b.init(&train);
    assert_eq!(b.vocab, strings(&["<PAD>", "a", "b", "<UNK>"]));
    let recs = b.build_dataset(train).unwrap();
    assert_eq!(recs.len(), 1);
    assert_eq!(recs[0].word_ids, vec![1, 2, 0, 0]);
    assert_eq!(recs[0].label_id, 0);
}

#[test]
fn dev_unknown_tokens_pad_and_truncate() {
    let mut b = ClassifierBuilder::new(args(4));
    b.load_classes(&strings(&["pos", "neg"]));
    let train = b.read_dataset(&strings(&["ab\tpos"])).unwrap();
    b.init(&train);
    let dev = b.read_dataset(&strings(&["abc\tneg", "abcde\tpos"])).unwrap();
    let recs = b.build_dataset(dev).unwrap();
    // "abc": a, b known, c unseen -> unknown id 3, then padded.
    assert_eq!(recs[0].word_ids, vec![1, 2, 3, 0]);
    assert_eq!(recs[0].label_id, 1);
    // "abcde": five ids truncated to the first four.
    assert_eq!(recs[1].word_ids, vec![1, 2, 3, 3]);
    assert_eq!(recs[1].label_id, 0);
}

#[test]
fn vocabulary_binds_padding_to_zero_and_unknown_to_last() {
    let mut b = ClassifierBuilder::new(args(4));
    b.load_classes(&strings(&["pos"]));
    let train = b.read_dataset(&strings(&["ba\tpos", "cb\tpos"])).unwrap();
    b.init(&train);
    // First-appearance order: b, a, then c.
    assert_eq!(b.vocab, strings(&["<PAD>", "b", "a", "c", "<UNK>"]));
    assert_eq!(b.vocab[0], "<PAD>");
    assert_eq!(b.vocab[b.vocab.len() - 1], "<UNK>");
}

#[test]
fn stopwords_are_excluded_from_the_vocabulary() {
    let mut b = ClassifierBuilder::new(args(4));
    b.load_classes(&strings(&["pos"]));
    b.load_stopwords(&strings(&["a"]));
    let train = b.read_dataset(&strings(&["ab\tpos"])).unwrap();
    b.init(&train);
    assert_eq!(b.vocab, strings(&["<PAD>", "b", "<UNK>"]));
}

#[test]
fn lines_without_the_separator_are_dropped() {
    let b = ClassifierBuilder::new(args(4));
    let samples = b.read_dataset(&strings(&["ab\tpos", "garbage", "cd\tneg"])).unwrap();
    assert_eq!(samples.len(), 2);
    assert_eq!(samples[0].0, "ab");
    assert_eq!(samples[1].1, "neg");
}

#[test]
fn label_missing_from_class_list_fails() {
    let mut b = ClassifierBuilder::new(args(4));
    b.load_classes(&strings(&["pos", "neg"]));
    let train = b.read_dataset(&strings(&["ab\tpos"])).unwrap();
    b.init(&train);
    let dev = b.read_dataset(&strings(&["ab\tzzz"])).unwrap();
    assert_eq!(b.build_dataset(dev).unwrap_err(), BuildError::UnknownLabel);
}

#[test]
fn numeric_label_mode_parses_or_fails() {
    let mut a = args(4);
    a.with_label_id = true;
    let mut b = ClassifierBuilder::new(a);
    let train = b.read_dataset(&strings(&["ab\t1"])).unwrap();
    b.init(&train);
    let recs = b.build_dataset(b.read_dataset(&strings(&["ab\t7"])).unwrap()).unwrap();
    assert_eq!(recs[0].label_id, 7);
    let bad = b.read_dataset(&strings(&["ab\tx1"])).unwrap();
    assert_eq!(b.build_dataset(bad).unwrap_err(), BuildError::BadLabelValue);
}

#[test]
fn word_mode_splits_on_single_spaces() {
    let mut a = args(3);
    a.with_lang_en = true;
    let mut b = ClassifierBuilder::new(a);
    b.load_classes(&strings(&["pos"]));
    let train = b.read_dataset(&strings(&["hi there\tpos"])).unwrap();
    b.init(&train);
    assert_eq!(b.vocab, strings(&["<PAD>", "hi", "there", "<UNK>"]));
    let recs = b.build_dataset(train).unwrap();
    assert_eq!(recs[0].word_ids, vec![1, 2, 0]);
}

#[test]
fn record_new_pads_and_truncates() {
    let r = ClassifierRecord::new(vec![5, 6], 1, 4);
    assert_eq!(r.word_ids, vec![5, 6, 0, 0]);
    assert_eq!(r.label_id, 1);
    let t = ClassifierRecord::new(vec![1, 2, 3, 4, 5], 0, 3);
    assert_eq!(t.word_ids, vec![1, 2, 3]);
}

#[test]
fn classifier_sample_new_keeps_fields() {
    let s = ClassifierSample::new("text", "label");
    assert_eq!(s.0, "text");
    assert_eq!(s.1, "label");
}

#[test]
fn classifier_vocab_lines_are_id_tab_token() {
    let mut b = ClassifierBuilder::new(args(4));
    b.load_classes(&strings(&["pos"]));
    let train = b.read_dataset(&strings(&["ab\tpos"])).unwrap();
    b.init(&train);
    let lines = b.save_vocab();
    assert_eq!(lines, strings(&["0\t<PAD>", "1\ta", "2\tb", "3\t<UNK>"]));
}

#[test]
fn split_data_has_schema_and_columns() {
    let mut b = ClassifierBuilder::new(args(2));
    b.load_classes(&strings(&["pos", "neg"]));
    let train = b.read_dataset(&strings(&["ab\tpos", "b\tneg"])).unwrap();
    b.init(&train);
    let recs = b.build_dataset(train).unwrap();
    let sd = b.save_dataset(&recs).unwrap();
    assert_eq!(sd.fields.len(), 3);
    assert_eq!(sd.fields[0].name, "word_0");
    assert!(sd.fields[0].wide);
    assert_eq!(sd.fields[1].name, "word_1");
    assert_eq!(sd.fields[2].name, "class");
    assert!(!sd.fields[2].wide);
    assert_eq!(sd.batches.len(), 1);
    let batch = &sd.batches[0];
    assert_eq!(batch.columns.len(), 3);
    match &batch.columns[0] {
        ColumnData::U32(v) => assert_eq!(v, &vec![1u32, 2u32]),
        ColumnData::U8(_) => panic!("expected a wide column"),
    }
    match &batch.columns[2] {
        ColumnData::U8(v) => assert_eq!(v, &vec![0u8, 1u8]),
        ColumnData::U32(_) => panic!("expected a narrow column"),
    }
}

#[test]
fn chunking_splits_every_hundred_records() {
    let mut b = ClassifierBuilder::new(args(1));
    b.load_classes(&strings(&["pos"]));
    let train = b.read_dataset(&strings(&["a\tpos"])).unwrap();
    b.init(&train);
    let mut recs = Vec::new();
    for _ in 0..150 {
        recs.push(ClassifierRecord::new(vec![1], 0, 1));
    }
    let sd = b.save_dataset(&recs).unwrap();
    assert_eq!(sd.batches.len(), 2);
    match &sd.batches[0].columns[0] {
        ColumnData::U32(v) => assert_eq!(v.len(), 100),
        ColumnData::U8(_) => panic!("expected a wide column"),
    }
    match &sd.batches[1].columns[0] {
        ColumnData::U32(v) => assert_eq!(v.len(), 50),
        ColumnData::U8(_) => panic!("expected a wide column"),
    }
}

#[test]
fn empty_split_serializes_to_no_batches() {
    let mut b = ClassifierBuilder::new(args(2));
    b.load_classes(&strings(&["pos"]));
    let train = b.read_dataset(&strings(&["ab\tpos"])).unwrap();
    b.init(&train);
    let sd = b.save_dataset(&Vec::new()).unwrap();
    assert_eq!(sd.fields.len(), 3);
    assert_eq!(sd.batches.len(), 0);
}

#[test]
fn label_over_eight_bits_is_refused_at_serialization() {
    let mut a = args(2);
    a.with_label_id = true;
    let mut b = ClassifierBuilder::new(a);
    let train = b.read_dataset(&strings(&["ab\t1"])).unwrap();
    b.init(&train);
    let recs = b.build_dataset(b.read_dataset(&strings(&["ab\t300"])).unwrap()).unwrap();
    assert_eq!(recs[0].label_id, 300);
    assert_eq!(b.save_dataset(&recs).unwrap_err(), BuildError::LabelTooWide);
}

#[test]
fn output_path_prefers_the_configured_one() {
    let mut a = args(2);
    a.output_path = Some("out".to_string());
    let b = ClassifierBuilder::new(a);
    assert_eq!(b.get_output_path(), "out");
    let c = ClassifierBuilder::new(args(2));
    assert_eq!(c.get_output_path(), ".");
}

#[test]
fn build_all_runs_the_three_splits() {
    let mut b = ClassifierBuilder::new(args(4));
    b.load_classes(&strings(&["pos", "neg"]));
    let out = build_all(
        &mut b,
        &strings(&["ab\tpos"]),
        &strings(&["abc\tneg"]),
        &strings(&["b\tpos"]),
    )
    .unwrap();
    assert_eq!(out.vocab_lines, strings(&["0\t<PAD>", "1\ta", "2\tb", "3\t<UNK>"]));
    assert_eq!(out.train.batches.len(), 1);
    assert_eq!(out.dev.batches.len(), 1);
    assert_eq!(out.test.batches.len(), 1);
    match &out.dev.batches[0].columns[2] {
        ColumnData::U32(v) => assert_eq!(v, &vec![3u32]),
        ColumnData::U8(_) => panic!("expected a wide column"),
    }
}

#[test]
fn identical_builds_give_identical_records() {
    let run = || {
        let mut b = ClassifierBuilder::new(args(4));
        b.load_classes(&strings(&["pos", "neg"]));
        let train = b.read_dataset(&strings(&["ba\tpos", "ac\tneg"])).unwrap();
        b.init(&train);
        let recs = b.build_dataset(train).unwrap();
        (b.vocab.clone(), recs)
    };
    let (v1, r1) = run();
    let (v2, r2) = run();
    assert_eq!(v1, v2);
    assert_eq!(r1.len(), r2.len());
    for (a, b) in r1.iter().zip(r2.iter()) {
        assert_eq!(a.word_ids, b.word_ids);
        assert_eq!(a.label_id, b.label_id);
    }
}

#[test]
fn parallel_encode_preserves_sample_order() {
    let mut a = args(2);
    a.with_label_id = true;
    let mut b = ClassifierBuilder::new(a);
    let train = b.read_dataset(&strings(&["ab\t0"])).unwrap();
    b.init(&train);
    let dev: Vec<String> = (0..250).map(|i| format!("ab\t{}", i)).collect();
    let samples = b.read_dataset(&dev).unwrap();
    let recs = b.build_dataset(samples).unwrap();
    assert_eq!(recs.len(), 250);
    for (i, rec) in recs.iter().enumerate() {
        assert_eq!(rec.label_id, i);
        assert_eq!(rec.word_ids, vec![1, 2]);
    }
}

#[test]
fn empty_text_encodes_to_all_padding() {
    let mut b = ClassifierBuilder::new(args(4));
    b.load_classes(&strings(&["pos"]));
    let train = b.read_dataset(&strings(&["ab\tpos"])).unwrap();
    b.init(&train);
    let dev = b.read_dataset(&strings(&["\tpos"])).unwrap();
    assert_eq!(dev[0].0, "");
    let recs = b.build_dataset(dev).unwrap();
    assert_eq!(recs[0].word_ids, vec![0, 0, 0, 0]);
}
