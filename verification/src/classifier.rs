//! Single-text classification: lines `text<SEP>label`, a vocabulary built
//! from the training texts, labels resolved against a class list or parsed
//! directly as ids, and records of `max_length` token ids plus a label id.
use vstd::prelude::*;
use rayon::iter::IntoParallelIterator;
use rayon::iter::ParallelIterator;
use crate::columns::BatchData;
use crate::columns::ColumnData;
use crate::columns::FieldDef;
use crate::columns::SplitData;
use crate::columns::CHUNK_SIZE;
use crate::columns::field_name;
use crate::columns::spec_chunk_hi;
use crate::columns::spec_chunk_lo;
use crate::columns::spec_field_name;
use crate::columns::spec_is_u32_col;
use crate::columns::spec_is_u8_col;
use crate::columns::spec_num_chunks;
use crate::errors::BuildError;
use crate::lexicon::add_tokens;
use crate::lexicon::copy_strings;
use crate::lexicon::find_entry;
use crate::lexicon::lemma_add_token_lists_props;
use crate::lexicon::lemma_special_ids;
use crate::lexicon::lemma_find_contains;
use crate::lexicon::encode_token_ids;
use crate::lexicon::spec_add_token_lists;
use crate::lexicon::spec_distinct;
use crate::lexicon::spec_find;
use crate::lexicon::spec_table_line;
use crate::lexicon::spec_token_id;
use crate::lexicon::spec_token_ids;
use crate::lexicon::table_lines;
use crate::text::parse_usize;
use crate::text::spec_parse_lines;
use crate::text::spec_parse_usize;
use crate::text::spec_split_once;
use crate::text::spec_tokenize;
use crate::text::split_once_str;
use crate::text::tokenize;
use crate::traits::IDataset;
use crate::lemma_spec_pad_truncate_len;
use crate::pad_truncate;
use crate::spec_pad_truncate;
use vstd::std_specs::vec::spec_vec_len;

verus! {

/// Configuration of a classification build. `max_vocab_size` is accepted
/// but has no effect on the produced vocabulary, and `with_vocab` is
/// likewise only carried: neither alters the build.
pub struct ClassifierArgs {
    /// Directory of the dataset files.
    pub path: String,
    /// Directory for the produced files; the input path when absent.
    pub output_path: Option<String>,
    /// Carried but unused: a user-supplied vocabulary is not consulted.
    pub with_vocab: bool,
    /// Carried but unused: no vocabulary-size cap is applied.
    pub max_vocab_size: usize,
    /// Fixed width every id sequence is padded or truncated to.
    pub sequence_length: usize,
    /// Optional stopwords file path; its lines are loaded separately.
    pub stopwords_file: Option<String>,
    /// The label field is itself the numeric label id.
    pub with_label_id: bool,
    /// Word-level tokenization (split on single spaces) instead of
    /// character-level.
    pub with_lang_en: bool,
    /// Separator between text and label.
    pub separator: String,
    /// The unknown token: always the last vocabulary id.
    pub unknown: String,
    /// The padding token: always vocabulary id 0.
    pub padding: String,
}

/// One parsed line: the text and the raw label field.
#[derive(Debug)]
pub struct ClassifierSample(pub String, pub String);

impl ClassifierSample {
    pub fn new(sent: &str, label: &str) -> (r: Self)
        ensures
            r.0@ == sent@,
            r.1@ == label@,
    {
        ClassifierSample(sent.to_owned(), label.to_owned())
    }
}

/// One encoded row: exactly `max_length` token ids and a label id.
#[derive(Debug)]
pub struct ClassifierRecord {
    pub word_ids: Vec<usize>,
    pub label_id: usize,
}

impl ClassifierRecord {
    /// Pad with 0 or truncate from the right to exactly `max_length` ids.
    pub fn new(word_ids: Vec<usize>, label_id: usize, max_length: usize) -> (r: Self)
        ensures
            r.word_ids@ == spec_pad_truncate(word_ids@, max_length as nat),
            r.word_ids@.len() == max_length,
            r.label_id == label_id,
    {
        proof {
            lemma_spec_pad_truncate_len(word_ids@, max_length as nat);
        }
        ClassifierRecord { word_ids: pad_truncate(word_ids, max_length), label_id }
    }
}

/// The classification dataset builder: configuration plus the vocabulary,
/// class and stopword tables. Tables start empty; classes and stopwords
/// are loaded from their files' lines, and `init` builds the vocabulary
/// from the training samples.
pub struct ClassifierBuilder {
    pub args: ClassifierArgs,
    pub vocab: Vec<String>,
    pub classes: Vec<String>,
    pub stopwords: Vec<String>,
}

/// The text of every sample, tokenized.
pub open spec fn spec_classifier_token_lists(
    samples: Seq<ClassifierSample>,
    word_mode: bool,
) -> Seq<Seq<Seq<char>>> {
    Seq::new(samples.len(), |i: int| spec_tokenize(samples[i].0@, word_mode))
}

/// The pairs (text, label field) of a sample sequence.
pub open spec fn spec_sample_pairs(samples: Seq<ClassifierSample>) -> Seq<(Seq<char>, Seq<char>)> {
    Seq::new(samples.len(), |i: int| (samples[i].0@, samples[i].1@))
}

impl ClassifierBuilder {
    pub fn new(args: ClassifierArgs) -> (r: Self)
        ensures
            r.args == args,
            r.vocab@.len() == 0,
            r.classes@.len() == 0,
            r.stopwords@.len() == 0,
    {
        ClassifierBuilder { args, vocab: Vec::new(), classes: Vec::new(), stopwords: Vec::new() }
    }

    /// Install the class list: one class name per line, id = line index.
    pub fn load_classes(&mut self, lines: &Vec<String>)
        ensures
            final(self).classes.deep_view() == lines.deep_view(),
            final(self).args == old(self).args,
            final(self).vocab == old(self).vocab,
            final(self).stopwords == old(self).stopwords,
    {
        self.classes = copy_strings(lines);
    }

    /// Install the stopwords: one excluded token per line.
    pub fn load_stopwords(&mut self, lines: &Vec<String>)
        ensures
            final(self).stopwords.deep_view() == lines.deep_view(),
            final(self).args == old(self).args,
            final(self).vocab == old(self).vocab,
            final(self).classes == old(self).classes,
    {
        self.stopwords = copy_strings(lines);
    }

    /// The reserved strings never collected as ordinary tokens.
    pub open spec fn skip_list(&self) -> Seq<Seq<char>> {
        seq![self.args.padding@, self.args.unknown@]
    }

    /// The vocabulary built from the training samples: the padding token at
    /// id 0, then every distinct non-stopword token in first-appearance
    /// order, then the unknown token as the last id.
    pub open spec fn spec_vocab(&self, samples: Seq<ClassifierSample>) -> Seq<Seq<char>> {
        spec_add_token_lists(
            seq![self.args.padding@],
            self.skip_list(),
            self.stopwords.deep_view(),
            spec_classifier_token_lists(samples, self.args.with_lang_en),
        ).push(self.args.unknown@)
    }

    /// What the label field of a sample resolves to: parsed as a number
    /// when labels are ids, else looked up in the class list.
    pub open spec fn spec_label_id(&self, label: Seq<char>) -> Result<usize, BuildError> {
        if self.args.with_label_id {
            match spec_parse_usize(label) {
                Some(v) => Ok(v),
                None => Err(BuildError::BadLabelValue),
            }
        } else {
            match spec_find(self.classes.deep_view(), label) {
                Some(i) => Ok(i as usize),
                None => Err(BuildError::UnknownLabel),
            }
        }
    }

    /// The id sequence of a text under the built vocabulary, before
    /// padding/truncation.
    pub open spec fn spec_word_ids(&self, text: Seq<char>) -> Seq<usize> {
        spec_token_ids(self.vocab.deep_view(), spec_tokenize(text, self.args.with_lang_en))
    }

    /// Encode one sample: look every token up (missing tokens become the
    /// unknown id), resolve the label, pad or truncate to the fixed width.
    pub fn encode_sample(&self, s: &ClassifierSample) -> (r: Result<ClassifierRecord, BuildError>)
        requires
            self.wf(),
        ensures
            self.encodes_to(*s, r),
    {
        let tokens = tokenize(s.0.as_str(), self.args.with_lang_en);
        let ids = encode_token_ids(&self.vocab, &tokens);
        let label_id: usize = if self.args.with_label_id {
            match parse_usize(s.1.as_str()) {
                Some(v) => v,
                None => {
                    return Err(BuildError::BadLabelValue);
                },
            }
        } else {
            match find_entry(&self.classes, &s.1) {
                Some(i) => i,
                None => {
                    return Err(BuildError::UnknownLabel);
                },
            }
        };
        Ok(ClassifierRecord::new(ids, label_id, self.args.sequence_length))
    }
}

/// Relies on rayon (`Vec::into_par_iter().map(..).collect::<Result<Vec<_>, _>>()`):
/// collecting into `Result` yields `Ok` of every mapped value, in input
/// order, when every call returns `Ok`, and otherwise the error of one
/// failing call; the closure only calls the verified per-sample encoder.
#[verifier::external_body]
fn par_encode(b: &ClassifierBuilder, samples: Vec<ClassifierSample>) -> (r: Result<
    Vec<ClassifierRecord>,
    BuildError,
>)
    requires
        b.wf(),
    ensures
        match r {
            Ok(rs) => rs@.len() == samples@.len() && forall|i: int|
                0 <= i < samples@.len() ==> b.encodes_to(#[trigger] samples@[i], Ok(rs@[i])),
            Err(e) => exists|i: int|
                0 <= i < samples@.len() && b.encodes_to(#[trigger] samples@[i], Err(e)),
        },
{
    samples.into_par_iter().map(|s| b.encode_sample(&s)).collect()
}

// ---------------------------------------------------------------------------
// Columnar serialization of classifier records
// ---------------------------------------------------------------------------
/// The 32-bit column of token position `k` over records `lo..hi`.
pub open spec fn spec_word_col(
    recs: Seq<ClassifierRecord>,
    lo: int,
    hi: int,
    k: int,
) -> Seq<u32> {
    Seq::new((hi - lo) as nat, |i: int| recs[lo + i].word_ids@[k] as u32)
}

/// The 8-bit label column over records `lo..hi`.
pub open spec fn spec_label_col(recs: Seq<ClassifierRecord>, lo: int, hi: int) -> Seq<u8> {
    Seq::new((hi - lo) as nat, |i: int| recs[lo + i].label_id as u8)
}

/// Every token id fits its 32-bit storage column.
pub open spec fn spec_classifier_ids_fit(recs: Seq<ClassifierRecord>) -> bool {
    forall|i: int, k: int|
        0 <= i < recs.len() && 0 <= k < recs[i].word_ids@.len() ==> #[trigger] recs[i].word_ids@[k]
            <= u32::MAX
}

/// Every label id fits its 8-bit storage column.
pub open spec fn spec_classifier_labels_fit(recs: Seq<ClassifierRecord>) -> bool {
    forall|i: int| 0 <= i < recs.len() ==> (#[trigger] recs[i].label_id) <= 255
}

/// The classifier schema: `word_0 .. word_{L-1}` (wide), then `class`.
pub open spec fn spec_classifier_fields_ok(fields: Seq<FieldDef>, max_length: int) -> bool {
    &&& fields.len() == max_length + 1
    &&& forall|k: int|
        0 <= k < max_length ==> (#[trigger] fields[k]).name@ == spec_field_name("word_"@, k)
            && fields[k].wide
    &&& fields[max_length].name@ == "class"@
    &&& !fields[max_length].wide
}

/// Batch `b`: one wide column per token position, then the label column,
/// each holding rows `lo..hi` of the record sequence.
pub open spec fn spec_classifier_batch_ok(
    recs: Seq<ClassifierRecord>,
    batch: BatchData,
    b: int,
    max_length: int,
) -> bool {
    &&& batch.columns@.len() == max_length + 1
    &&& forall|k: int|
        0 <= k < max_length ==> spec_is_u32_col(
            #[trigger] batch.columns@[k],
            spec_word_col(recs, spec_chunk_lo(b), spec_chunk_hi(b, recs.len() as int), k),
        )
    &&& spec_is_u8_col(
        batch.columns@[max_length],
        spec_label_col(recs, spec_chunk_lo(b), spec_chunk_hi(b, recs.len() as int)),
    )
}

impl IDataset<ClassifierSample, ClassifierRecord> for ClassifierBuilder {
    /// The two special tokens must differ, or no vocabulary can bind the
    /// padding token to id 0 and the unknown token to the last id.
    open spec fn init_pre(&self) -> bool {
        self.args.padding@ != self.args.unknown@
    }

    open spec fn wf(&self) -> bool {
        &&& self.vocab.deep_view().len() >= 2
    &&& self.vocab.deep_view()[0] == self.args.padding@
        &&& self.vocab.deep_view().last() == self.args.unknown@
        &&& spec_distinct(self.vocab.deep_view())
    }

    open spec fn inited(&self, old_self: Self, train: Seq<ClassifierSample>) -> bool {
        &&& self.args == old_self.args
        &&& self.classes == old_self.classes
        &&& self.stopwords == old_self.stopwords
        &&& self.vocab.deep_view() == old_self.spec_vocab(train)
    }

    open spec fn parses_to(
        &self,
        lines: Seq<Seq<char>>,
        r: Result<Vec<ClassifierSample>, BuildError>,
    ) -> bool {
        match r {
            Ok(ss) => spec_sample_pairs(ss@) == spec_parse_lines(self.args.separator@, lines),
            Err(_) => false,
        }
    }

    open spec fn encodes_to(
        &self,
        s: ClassifierSample,
        r: Result<ClassifierRecord, BuildError>,
    ) -> bool {
        match r {
            Ok(rec) => self.spec_label_id(s.1@) is Ok && rec.label_id == self.spec_label_id(
                s.1@,
            )->Ok_0 && rec.word_ids@ == spec_pad_truncate(
                self.spec_word_ids(s.0@),
                self.args.sequence_length as nat,
            ),
            Err(e) => self.spec_label_id(s.1@) == Err::<usize, BuildError>(e),
        }
    }

    open spec fn record_wf(&self, rec: ClassifierRecord) -> bool {
        rec.word_ids@.len() == self.args.sequence_length
    }

    open spec fn serializes_to(
        &self,
        records: Seq<ClassifierRecord>,
        r: Result<SplitData, BuildError>,
    ) -> bool {
        match r {
            Ok(sd) => {
                &&& spec_classifier_ids_fit(records)
                &&& spec_classifier_labels_fit(records)
                &&& spec_classifier_fields_ok(sd.fields@, self.args.sequence_length as int)
                &&& sd.batches@.len() == spec_num_chunks(records.len() as int)
                &&& forall|b: int|
                    0 <= b < sd.batches@.len() ==> spec_classifier_batch_ok(
                        records,
                        #[trigger] sd.batches@[b],
                        b,
                        self.args.sequence_length as int,
                    )
            },
            Err(e) => {
                ||| (e == BuildError::IdTooWide && !spec_classifier_ids_fit(records))
                ||| (e == BuildError::LabelTooWide && !spec_classifier_labels_fit(records))
            },
        }
    }

    open spec fn vocab_lines_of(&self, lines: Seq<Seq<char>>) -> bool {
        &&& lines.len() == self.vocab.deep_view().len()
        &&& forall|i: int|
            0 <= i < lines.len() ==> #[trigger] lines[i] == spec_table_line(
                i,
                self.vocab.deep_view()[i],
            )
    }

    open spec fn out_path(&self) -> Seq<char> {
        match self.args.output_path {
            Some(p) => p@,
            None => self.args.path@,
        }
    }

    fn init(&mut self, train_samples: &Vec<ClassifierSample>) {
        let ghost old_self = *self;
        let mut skip: Vec<String> = Vec::new();
        skip.push(self.args.padding.clone());
        skip.push(self.args.unknown.clone());
        proof {
            assert(skip.deep_view() =~= self.skip_list());
        }
        let mut vocab: Vec<String> = Vec::new();
        vocab.push(self.args.padding.clone());
        let ghost entries0 = vocab.deep_view();
        proof {
            assert(entries0 =~= seq![self.args.padding@]);
        }
        let ghost lists = spec_classifier_token_lists(train_samples@, self.args.with_lang_en);
        let ghost skipdv = skip.deep_view();
        let ghost stopdv = self.stopwords.deep_view();
        let n = train_samples.len();
        let mut i: usize = 0;
        proof {
            assert(lists.skip(0) =~= lists);
        }
        while i < n
            invariant
                n == train_samples@.len(),
                0 <= i <= n,
                *self == old_self,
                skipdv == skip.deep_view(),
                stopdv == self.stopwords.deep_view(),
                lists == spec_classifier_token_lists(train_samples@, self.args.with_lang_en),
                lists.len() == n,
                spec_add_token_lists(vocab.deep_view(), skipdv, stopdv, lists.skip(i as int))
                    == spec_add_token_lists(entries0, skipdv, stopdv, lists),
            decreases n - i,
        {
            let ghost rest = lists.skip(i as int);
            assert(rest.len() > 0 && rest[0] == lists[i as int]);
            assert(rest.drop_first() =~= lists.skip(i as int + 1));
            let tokens = tokenize(train_samples[i].0.as_str(), self.args.with_lang_en);
            assert(tokens.deep_view() == lists[i as int]);
            add_tokens(&mut vocab, &skip, &self.stopwords, &tokens);
            i = i + 1;
        }
        proof {
            assert(lists.skip(n as int) =~= Seq::<Seq<Seq<char>>>::empty());
        }
        let ghost collected = vocab.deep_view();
        let ghost pad = self.args.padding@;
        let ghost unk = self.args.unknown@;
        proof {
            assert(collected == spec_add_token_lists(entries0, skipdv, stopdv, lists));
            lemma_add_token_lists_props(entries0, skipdv, stopdv, lists);
            assert(spec_distinct(entries0));
            assert(collected.take(1) == entries0);
            assert(collected[0] == collected.take(1)[0]);
            assert(collected[0] == pad);
            assert(skipdv[1] == unk);
            assert(skipdv.contains(unk));
            assert forall|k: int| 0 <= k < collected.len() implies collected[k] != unk by {
                if k == 0 {
                    assert(collected[k] == pad);
                } else {
                    assert(!skipdv.contains(collected[k]));
                }
            }
        }
        vocab.push(self.args.unknown.clone());
        proof {
            assert(vocab.deep_view() =~= collected.push(unk));
            let dv = vocab.deep_view();
            assert(dv[0] == pad);
            assert(dv.last() == unk);
            assert forall|a: int, b: int| 0 <= a < b < dv.len() implies dv[a] != dv[b] by {
                if b == dv.len() - 1 {
                    assert(dv[a] == collected[a]);
                    assert(collected[a] != unk);
                } else {
                    assert(dv[a] == collected[a] && dv[b] == collected[b]);
                }
            }
        }
        self.vocab = vocab;
    }

    fn read_dataset(&self, lines: &Vec<String>) -> (r: Result<Vec<ClassifierSample>, BuildError>) {
        let ghost sep = self.args.separator@;
        let ghost lv = lines.deep_view();
        let mut out: Vec<ClassifierSample> = Vec::new();
        let n = lines.len();
        let mut i: usize = 0;
        proof {
            assert(lv.skip(0) =~= lv);
            assert(spec_sample_pairs(out@) =~= Seq::<(Seq<char>, Seq<char>)>::empty());
        }
        while i < n
            invariant
                n == lines@.len(),
                0 <= i <= n,
                sep == self.args.separator@,
                lv == lines.deep_view(),
                lv.len() == n,
                spec_parse_lines(sep, lv) == spec_sample_pairs(out@) + spec_parse_lines(
                    sep,
                    lv.skip(i as int),
                ),
            decreases n - i,
        {
            let ghost rest = lv.skip(i as int);
            let ghost pairs0 = spec_sample_pairs(out@);
            assert(rest.len() > 0 && rest[0] == lv[i as int]);
            assert(rest.drop_first() =~= lv.skip(i as int + 1));
            assert(lv[i as int] == lines@[i as int]@);
            match split_once_str(lines[i].as_str(), self.args.separator.as_str()) {
                Some(p) => {
                    let sample = ClassifierSample::new(p.0.as_str(), p.1.as_str());
                    let ghost pr = (p.0@, p.1@);
                    out.push(sample);
                    proof {
                        assert(spec_split_once(lv[i as int], sep) == Some(pr));
                        assert(spec_parse_lines(sep, rest) == seq![pr] + spec_parse_lines(
                            sep,
                            lv.skip(i as int + 1),
                        ));
                        assert(spec_sample_pairs(out@) =~= pairs0.push(pr));
                        assert(pairs0 + (seq![pr] + spec_parse_lines(sep, lv.skip(i as int + 1)))
                            =~= pairs0.push(pr) + spec_parse_lines(sep, lv.skip(i as int + 1)));
                    }
                },
                None => {
                    proof {
                        assert(spec_split_once(lv[i as int], sep) is None);
                        assert(spec_parse_lines(sep, rest) == spec_parse_lines(
                            sep,
                            lv.skip(i as int + 1),
                        ));
                    }
                },
            }
            i = i + 1;
        }
        proof {
            assert(lv.skip(n as int) =~= Seq::<Seq<char>>::empty());
        }
        Ok(out)
    }

    fn build_dataset(&self, samples: Vec<ClassifierSample>) -> (r: Result<
        Vec<ClassifierRecord>,
        BuildError,
    >) {
        let ghost sv = samples@;
        let r = par_encode(self, samples);
        proof {
            match &r {
                Ok(rs) => {
                    assert forall|i: int| 0 <= i < sv.len() implies self.record_wf(rs@[i]) by {
                        assert(self.encodes_to(sv[i], Ok(rs@[i])));
                        lemma_spec_pad_truncate_len(
                            self.spec_word_ids(sv[i].0@),
                            self.args.sequence_length as nat,
                        );
                    }
                },
                Err(_) => {},
            }
        }
        r
    }

    fn save_vocab(&self) -> (r: Vec<String>) {
        table_lines(&self.vocab)
    }

    fn save_dataset(&self, records: &Vec<ClassifierRecord>) -> (r: Result<SplitData, BuildError>) {
        let ghost rv = records@;
        let max_length = self.args.sequence_length;
        let n = records.len();
        // Validate the fixed storage widths before materializing anything.
        let mut i: usize = 0;
        while i < n
            invariant
                rv == records@,
                n == rv.len(),
                0 <= i <= n,
                forall|a: int| 0 <= a < rv.len() ==> self.record_wf(#[trigger] rv[a]),
                max_length == self.args.sequence_length,
                forall|a: int, k: int|
                    0 <= a < i && 0 <= k < rv[a].word_ids@.len() ==> #[trigger] rv[a].word_ids@[k]
                        <= u32::MAX,
                forall|a: int| 0 <= a < i ==> (#[trigger] rv[a].label_id) <= 255,
            decreases n - i,
        {
            let w = records[i].word_ids.len();
            let mut k: usize = 0;
            while k < w
                invariant
                    rv == records@,
                    0 <= i < rv.len(),
                    w == rv[i as int].word_ids@.len(),
                    0 <= k <= w,
                    forall|kk: int|
                        0 <= kk < k ==> #[trigger] rv[i as int].word_ids@[kk] <= u32::MAX,
                decreases w - k,
            {
                if records[i].word_ids[k] > u32::MAX as usize {
                    assert(rv[i as int].word_ids@[k as int] > u32::MAX);
                    assert(!spec_classifier_ids_fit(rv));
                    return Err(BuildError::IdTooWide);
                }
                k = k + 1;
            }
            if records[i].label_id > 255 {
                assert(rv[i as int].label_id > 255);
                assert(!spec_classifier_labels_fit(rv));
                return Err(BuildError::LabelTooWide);
            }
            i = i + 1;
        }
        assert(spec_classifier_ids_fit(rv));
        assert(spec_classifier_labels_fit(rv));
        // Schema: word_0 .. word_{L-1}, then the class column.
        let mut fields: Vec<FieldDef> = Vec::new();
        let mut k: usize = 0;
        while k < max_length
            invariant
                0 <= k <= max_length,
                fields@.len() == k,
                forall|kk: int|
                    0 <= kk < k ==> (#[trigger] fields@[kk]).name@ == spec_field_name("word_"@, kk)
                        && fields@[kk].wide,
            decreases max_length - k,
        {
            let name = field_name("word_", k);
            fields.push(FieldDef { name, wide: true });
            k = k + 1;
        }
        fields.push(FieldDef { name: "class".to_owned(), wide: false });
        assert(spec_classifier_fields_ok(fields@, max_length as int));
        // Batches of CHUNK_SIZE records, the last one partial.
        let mut batches: Vec<BatchData> = Vec::new();
        let mut lo: usize = 0;
        let ghost mut b: int = 0;
        while lo < n
            invariant
                rv == records@,
                n == rv.len(),
                forall|a: int| 0 <= a < rv.len() ==> self.record_wf(#[trigger] rv[a]),
                max_length == self.args.sequence_length,
                0 <= b,
                lo as int == if b * (CHUNK_SIZE as int) <= n as int {
                    b * (CHUNK_SIZE as int)
                } else {
                    n as int
                },
                b == 0 || (b - 1) * (CHUNK_SIZE as int) < n as int,
                batches@.len() == b,
                forall|bb: int|
                    0 <= bb < b ==> spec_classifier_batch_ok(
                        rv,
                        #[trigger] batches@[bb],
                        bb,
                        max_length as int,
                    ),
            decreases n - lo,
        {
            assert(lo as int == b * (CHUNK_SIZE as int));
            let hi = if n - lo > CHUNK_SIZE {
                lo + CHUNK_SIZE
            } else {
                n
            };
            assert(hi as int == spec_chunk_hi(b, n as int));
            let mut cols: Vec<ColumnData> = Vec::new();
            let mut k: usize = 0;
            while k < max_length
                invariant
                    rv == records@,
                    n == rv.len(),
                    forall|a: int| 0 <= a < rv.len() ==> self.record_wf(#[trigger] rv[a]),
                    max_length == self.args.sequence_length,
                    lo as int == spec_chunk_lo(b),
                    hi as int == spec_chunk_hi(b, n as int),
                    lo <= hi <= n,
                    0 <= k <= max_length,
                    cols@.len() == k,
                    forall|kk: int|
                        0 <= kk < k ==> spec_is_u32_col(
                            #[trigger] cols@[kk],
                            spec_word_col(rv, lo as int, hi as int, kk),
                        ),
                decreases max_length - k,
            {
                let mut col: Vec<u32> = Vec::new();
                let mut ri: usize = lo;
                while ri < hi
                    invariant
                        rv == records@,
                        n == rv.len(),
                        forall|a: int| 0 <= a < rv.len() ==> self.record_wf(#[trigger] rv[a]),
                        max_length == self.args.sequence_length,
                        0 <= k < max_length,
                        lo <= ri <= hi <= n,
                        col@ == spec_word_col(rv, lo as int, hi as int, k as int).take(
                            ri - lo,
                        ),
                    decreases hi - ri,
                {
                    assert(rv[ri as int].word_ids@.len() == max_length);
                    col.push(records[ri].word_ids[k] as u32);
                    assert(col@ =~= spec_word_col(rv, lo as int, hi as int, k as int).take(
                        ri - lo + 1,
                    ));
                    ri = ri + 1;
                }
                assert(col@ =~= spec_word_col(rv, lo as int, hi as int, k as int));
                cols.push(ColumnData::U32(col));
                k = k + 1;
            }
            let mut lab: Vec<u8> = Vec::new();
            let mut ri: usize = lo;
            while ri < hi
                invariant
                    rv == records@,
                    n == rv.len(),
                    lo <= ri <= hi <= n,
                    lab@ == spec_label_col(rv, lo as int, hi as int).take(ri - lo),
                decreases hi - ri,
            {
                lab.push(records[ri].label_id as u8);
                assert(lab@ =~= spec_label_col(rv, lo as int, hi as int).take(ri - lo + 1));
                ri = ri + 1;
            }
            assert(lab@ =~= spec_label_col(rv, lo as int, hi as int));
            cols.push(ColumnData::U8(lab));
            let batch = BatchData { columns: cols };
            proof {
                assert(batch.columns@.len() == max_length + 1);
                assert(spec_classifier_batch_ok(rv, batch, b, max_length as int));
            }
            batches.push(batch);
            proof {
                b = b + 1;
            }
            lo = hi;
        }
        proof {
            if b == 0 {
                assert(n == 0);
                assert(spec_num_chunks(0) == 0);
            } else {
                assert((b - 1) * (CHUNK_SIZE as int) < n as int);
                assert(b * (CHUNK_SIZE as int) >= n as int);
                assert(b == spec_num_chunks(n as int)) by (nonlinear_arith)
                    requires
                        (b - 1) * (CHUNK_SIZE as int) < n as int,
                        b * (CHUNK_SIZE as int) >= n as int,
                        CHUNK_SIZE == 100,
                        0 < b,
                ;
            }
        }
        Ok(SplitData { fields, batches })
    }

    fn get_output_path(&self) -> (r: String) {
        match &self.args.output_path {
            Some(p) => p.clone(),
            None => self.args.path.clone(),
        }
    }
}

// ---------------------------------------------------------------------------
// Laws
// ---------------------------------------------------------------------------
/// In any built vocabulary the padding token is bound to id 0 and the
/// unknown token to the last id, `vocabulary_size - 1`.
pub proof fn lemma_classifier_special_token_ids(b: ClassifierBuilder)
    requires
        b.wf(),
    ensures
        spec_find(b.vocab.deep_view(), b.args.padding@) == Some(0int),
        spec_find(b.vocab.deep_view(), b.args.unknown@) == Some(b.vocab.deep_view().len() - 1),
{
    lemma_special_ids(b.vocab.deep_view(), b.args.padding@, b.args.unknown@);
}

/// A token present in the vocabulary always encodes to its vocabulary id,
/// and a token absent from it always encodes to the unknown id — in every
/// split, because the encoded id depends only on the frozen vocabulary and
/// the token.
pub proof fn lemma_classifier_lookup_round_trip(b: ClassifierBuilder, tok: Seq<char>)
    requires
        b.wf(),
    ensures
        b.vocab.deep_view().contains(tok) ==> Some(spec_token_id(b.vocab.deep_view(), tok) as int)
            == spec_find(b.vocab.deep_view(), tok),
        !b.vocab.deep_view().contains(tok) ==> spec_token_id(b.vocab.deep_view(), tok) as int
            == b.vocab.deep_view().len() - 1,
{
    broadcast use vstd::std_specs::vec::axiom_spec_len;

    lemma_find_contains(b.vocab.deep_view(), tok);
    crate::lexicon::lemma_find_from_props(b.vocab.deep_view(), tok, 0);
    assert(b.vocab.deep_view().len() == b.vocab@.len());
    assert(spec_vec_len(&b.vocab) == b.vocab@.len());
}

/// Re-running a build with identical configuration and inputs yields
/// records with identical content: parsing and encoding are functional in
/// the builder and its inputs.
pub proof fn lemma_classifier_deterministic(
    b: ClassifierBuilder,
    lines: Seq<Seq<char>>,
    s: ClassifierSample,
    r1: Result<Vec<ClassifierSample>, BuildError>,
    r2: Result<Vec<ClassifierSample>, BuildError>,
    e1: Result<ClassifierRecord, BuildError>,
    e2: Result<ClassifierRecord, BuildError>,
)
    requires
        b.parses_to(lines, r1),
        b.parses_to(lines, r2),
        b.encodes_to(s, e1),
        b.encodes_to(s, e2),
    ensures
        r1 is Ok && r2 is Ok,
        spec_sample_pairs(r1->Ok_0@) == spec_sample_pairs(r2->Ok_0@),
        e1 is Ok <==> e2 is Ok,
        e1 is Ok ==> e1->Ok_0.word_ids@ == e2->Ok_0.word_ids@ && e1->Ok_0.label_id
            == e2->Ok_0.label_id,
        e1 is Err ==> e1 == e2,
{
}

} // verus!
