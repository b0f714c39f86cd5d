use fast_record::columns::ColumnData;
use fast_record::errors::BuildError;
use fast_record::similarity::SimilarityArgs;
use fast_record::similarity::SimilarityBuilder;
use fast_record::similarity::SimilarityRecord;
use fast_record::similarity::SimilaritySample;
use fast_record::traits::IDataset;

fn args(max_length: usize) -> SimilarityArgs {
    SimilarityArgs {
        path: ".".to_string(),
        output_path: None,
        with_vocab: false,
        max_vocab_size: 10000,
        sequence_length: max_length,
        stopwords_file: None,
        with_bool: false,
        with_lang_en: false,
        sent_sep: "|".to_string(),
        label_sep: "\t".to_string(),
        unknown: "<UNK>".to_string(),
        padding: "<PAD>".to_string(),
    }
}

fn strings(v: &[&str]) -> Vec<String> {
    v.iter().map(|s| s.to_string()).collect()
}

#[test]
fn parses_two_texts_and_an_integer_label() {
    let b = SimilarityBuilder::new(args(4));
    let samples = b.read_dataset(&strings(&["ab|cd\t1", "nonsense", "e|f\t0"])).unwrap();
    assert_eq!(samples.len(), 2);
    assert_eq!(samples[0].0, "ab");
    assert_eq!(samples[0].1, "cd");
    assert_eq!(samples[0].2, 1);
    assert_eq!(samples[1].2, 0);
}

#[test]
fn boolean_labels_become_one_and_zero() {
    let mut a = args(4);
    a.with_bool = true;
    let b = SimilarityBuilder::new(a);
    let samples = b.read_dataset(&strings(&["a|b\ttrue", "c|d\tfalse"])).unwrap();
    assert_eq!(samples[0].2, 1);
    assert_eq!(samples[1].2, 0);
}

#[test]
fn unparsable_label_fails_the_split() {
    let b = SimilarityBuilder::new(args(4));
    assert_eq!(
        b.read_dataset(&strings(&["a|b\tmaybe"])).unwrap_err(),
        BuildError::BadLabelValue
    );
    let mut a = args(4);
    a.with_bool = true;
    let c = SimilarityBuilder::new(a);
    assert_eq!(
        c.read_dataset(&strings(&["a|b\t1"])).unwrap_err(),
        BuildError::BadLabelValue
    );
}

#[test]
fn label_over_eight_bits_fails_the_split() {
    let b = SimilarityBuilder::new(args(4));
    assert_eq!(
        b.read_dataset(&strings(&["a|b\t300"])).unwrap_err(),
        BuildError::BadLabelValue
    );
}

#[test]
fn vocabulary_covers_both_texts_in_order() {
    let mut b = SimilarityBuilder::new(args(4));
    let train = b.read_dataset(&strings(&["ba|cd\t1"])).unwrap();
    b.init(&train);
    assert_eq!(b.vocab, strings(&["<PAD>", "b", "a", "c", "d", "<UNK>"]));
}

#[test]
fn encodes_both_sequences_to_fixed_width() {
    let mut b = SimilarityBuilder::new(args(3));
    let train = b.read_dataset(&strings(&["ab|c\t1"])).unwrap();
    b.init(&train);
    // vocab: <PAD>, a, b, c, <UNK>
    let dev = b.read_dataset(&strings(&["abca|x\t0"])).unwrap();
    let recs = b.build_dataset(dev).unwrap();
    assert_eq!(recs[0].front_word_ids, vec![1, 2, 3]);
    assert_eq!(recs[0].back_word_ids, vec![4, 0, 0]);
    assert_eq!(recs[0].label, 0);
}

#[test]
fn record_new_pads_both_sides() {
    let r = SimilarityRecord::new(vec![1], vec![2, 3, 4, 5], 9, 3);
    assert_eq!(r.front_word_ids, vec![1, 0, 0]);
    assert_eq!(r.back_word_ids, vec![2, 3, 4]);
    assert_eq!(r.label, 9);
}

#[test]
fn similarity_sample_new_keeps_fields() {
    let s = SimilaritySample::new("x", "y", 3);
    assert_eq!(s.0, "x");
    assert_eq!(s.1, "y");
    assert_eq!(s.2, 3);
}

#[test]
fn split_data_lays_out_both_texts_then_label() {
    let mut b = SimilarityBuilder::new(args(2));
    let train = b.read_dataset(&strings(&["ab|cd\t1"])).unwrap();
    b.init(&train);
    let recs = b.build_dataset(train).unwrap();
    let sd = b.save_dataset(&recs).unwrap();
    assert_eq!(sd.fields.len(), 5);
    assert_eq!(sd.fields[0].name, "text_a_0");
    assert_eq!(sd.fields[1].name, "text_a_1");
    assert_eq!(sd.fields[2].name, "text_b_0");
    assert_eq!(sd.fields[3].name, "text_b_1");
    assert_eq!(sd.fields[4].name, "label");
    assert!(!sd.fields[4].wide);
    assert_eq!(sd.batches.len(), 1);
    let batch = &sd.batches[0];
    assert_eq!(batch.columns.len(), 5);
    match &batch.columns[2] {
        ColumnData::U32(v) => assert_eq!(v, &vec![3u32]),
        ColumnData::U8(_) => panic!("expected a wide column"),
    }
    match &batch.columns[4] {
        ColumnData::U8(v) => assert_eq!(v, &vec![1u8]),
        ColumnData::U32(_) => panic!("expected a narrow column"),
    }
}

#[test]
fn similarity_vocab_lines_are_id_tab_token() {
    let mut b = SimilarityBuilder::new(args(2));
    let train = b.read_dataset(&strings(&["a|b\t0"])).unwrap();
    b.init(&train);
    assert_eq!(b.save_vocab(), strings(&["0\t<PAD>", "1\ta", "2\tb", "3\t<UNK>"]));
}
