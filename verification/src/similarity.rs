//! Text-pair similarity: lines `text_a<SEP>text_b<SEP>label`, one shared
//! vocabulary built from both training texts, labels parsed directly as
//! booleans or integers, and records of two `max_length` id sequences
//! plus an eight-bit label.
use vstd::prelude::*;
use rayon::iter::IntoParallelIterator;
use rayon::iter::ParallelIterator;
use crate::columns::BatchData;
use crate::columns::ColumnData;
use crate::columns::FieldDef;
use crate::columns::SplitData;
use crate::columns::CHUNK_SIZE;
use crate::columns::field_name;
use crate::columns::spec_chunk_hi;
use crate::columns::spec_chunk_lo;
use crate::columns::spec_field_name;
use crate::columns::spec_is_u32_col;
use crate::columns::spec_is_u8_col;
use crate::columns::spec_num_chunks;
use crate::errors::BuildError;
use crate::lexicon::add_tokens;
use crate::lexicon::copy_strings;
use crate::lexicon::lemma_add_token_lists_props;
use crate::lexicon::lemma_special_ids;
use crate::lexicon::encode_token_ids;
use crate::lexicon::spec_add_token_lists;
use crate::lexicon::spec_distinct;
use crate::lexicon::spec_find;
use crate::lexicon::spec_table_line;
use crate::lexicon::spec_token_ids;
use crate::lexicon::table_lines;
use crate::text::parse_bool;
use crate::text::parse_u8;
use crate::text::spec_parse_bool;
use crate::text::spec_parse_u8;
use crate::text::spec_split_once;
use crate::text::spec_tokenize;
use crate::text::split_once_str;
use crate::text::tokenize;
use crate::traits::IDataset;
use crate::lemma_spec_pad_truncate_len;
use crate::pad_truncate;
use crate::spec_pad_truncate;

verus! {

/// Configuration of a similarity build. As in classification,
/// `max_vocab_size` and `with_vocab` are carried but alter nothing.
pub struct SimilarityArgs {
    /// Directory of the dataset files.
    pub path: String,
    /// Directory for the produced files; the input path when absent.
    pub output_path: Option<String>,
    /// Carried but unused: a user-supplied vocabulary is not consulted.
    pub with_vocab: bool,
    /// Carried but unused: no vocabulary-size cap is applied.
    pub max_vocab_size: usize,
    /// Fixed width every id sequence is padded or truncated to.
    pub sequence_length: usize,
    /// Optional stopwords file path; its lines are loaded separately.
    pub stopwords_file: Option<String>,
    /// The label field is `true`/`false` instead of an integer.
    pub with_bool: bool,
    /// Word-level tokenization (split on single spaces) instead of
    /// character-level.
    pub with_lang_en: bool,
    /// Separator between the two texts.
    pub sent_sep: String,
    /// Separator between the texts and the label.
    pub label_sep: String,
    /// The unknown token: always the last vocabulary id.
    pub unknown: String,
    /// The padding token: always vocabulary id 0.
    pub padding: String,
}

/// One parsed line: the two texts and the parsed label.
#[derive(Debug)]
pub struct SimilaritySample(pub String, pub String, pub u8);

impl SimilaritySample {
    pub fn new(sent_a: &str, sent_b: &str, label: u8) -> (r: Self)
        ensures
            r.0@ == sent_a@,
            r.1@ == sent_b@,
            r.2 == label,
    {
        SimilaritySample(sent_a.to_owned(), sent_b.to_owned(), label)
    }
}

/// One encoded row: two sequences of exactly `max_length` token ids and
/// the label.
#[derive(Debug)]
pub struct SimilarityRecord {
    pub front_word_ids: Vec<usize>,
    pub back_word_ids: Vec<usize>,
    pub label: u8,
}

impl SimilarityRecord {
    /// Pad with 0 or truncate from the right, both sequences independently,
    /// to exactly `max_length` ids each.
    pub fn new(
        front_word_ids: Vec<usize>,
        back_word_ids: Vec<usize>,
        label: u8,
        max_length: usize,
    ) -> (r: Self)
        ensures
            r.front_word_ids@ == spec_pad_truncate(front_word_ids@, max_length as nat),
            r.back_word_ids@ == spec_pad_truncate(back_word_ids@, max_length as nat),
            r.front_word_ids@.len() == max_length,
            r.back_word_ids@.len() == max_length,
            r.label == label,
    {
        proof {
            lemma_spec_pad_truncate_len(front_word_ids@, max_length as nat);
            lemma_spec_pad_truncate_len(back_word_ids@, max_length as nat);
        }
        SimilarityRecord {
            front_word_ids: pad_truncate(front_word_ids, max_length),
            back_word_ids: pad_truncate(back_word_ids, max_length),
            label,
        }
    }
}

/// The similarity dataset builder: configuration plus the vocabulary and
/// stopword tables.
pub struct SimilarityBuilder {
    pub args: SimilarityArgs,
    pub vocab: Vec<String>,
    pub stopwords: Vec<String>,
}

/// Both texts of every sample, tokenized, interleaved in sample order.
pub open spec fn spec_similarity_token_lists(
    samples: Seq<SimilaritySample>,
    word_mode: bool,
) -> Seq<Seq<Seq<char>>> {
    Seq::new(
        samples.len() * 2,
        |i: int|
            if i % 2 == 0 {
                spec_tokenize(samples[i / 2].0@, word_mode)
            } else {
                spec_tokenize(samples[i / 2].1@, word_mode)
            },
    )
}

/// The triples (text a, text b, label) of a sample sequence.
pub open spec fn spec_sim_triples(samples: Seq<SimilaritySample>) -> Seq<(Seq<char>, Seq<char>, u8)> {
    Seq::new(samples.len(), |i: int| (samples[i].0@, samples[i].1@, samples[i].2))
}

/// What a label field parses to: `true`/`false` as 1/0 in boolean mode,
/// else an eight-bit integer.
pub open spec fn spec_sim_label(with_bool: bool, s: Seq<char>) -> Option<u8> {
    if with_bool {
        match spec_parse_bool(s) {
            Some(b) => Some(
                if b {
                    1u8
                } else {
                    0u8
                },
            ),
            None => None,
        }
    } else {
        spec_parse_u8(s)
    }
}

/// What parsing the lines of a similarity split yields: each line is split
/// on the label separator, its text part on the text separator; lines that
/// fail either split are dropped; an unparsable label fails the split.
pub open spec fn spec_parse_sim(
    sent_sep: Seq<char>,
    label_sep: Seq<char>,
    with_bool: bool,
    lines: Seq<Seq<char>>,
) -> Result<Seq<(Seq<char>, Seq<char>, u8)>, BuildError>
    decreases lines.len(),
{
    if lines.len() == 0 {
        Ok(Seq::empty())
    } else {
        match spec_split_once(lines[0], label_sep) {
            None => spec_parse_sim(sent_sep, label_sep, with_bool, lines.drop_first()),
            Some(p) => match spec_split_once(p.0, sent_sep) {
                None => spec_parse_sim(sent_sep, label_sep, with_bool, lines.drop_first()),
                Some(q) => match spec_sim_label(with_bool, p.1) {
                    None => Err(BuildError::BadLabelValue),
                    Some(v) => match spec_parse_sim(
                        sent_sep,
                        label_sep,
                        with_bool,
                        lines.drop_first(),
                    ) {
                        Ok(rest) => Ok(seq![(q.0, q.1, v)] + rest),
                        Err(e) => Err(e),
                    },
                },
            },
        }
    }
}

impl SimilarityBuilder {
    pub fn new(args: SimilarityArgs) -> (r: Self)
        ensures
            r.args == args,
            r.vocab@.len() == 0,
            r.stopwords@.len() == 0,
    {
        SimilarityBuilder { args, vocab: Vec::new(), stopwords: Vec::new() }
    }

    /// Install the stopwords: one excluded token per line.
    pub fn load_stopwords(&mut self, lines: &Vec<String>)
        ensures
            final(self).stopwords.deep_view() == lines.deep_view(),
            final(self).args == old(self).args,
            final(self).vocab == old(self).vocab,
    {
        self.stopwords = copy_strings(lines);
    }

    /// The reserved strings never collected as ordinary tokens.
    pub open spec fn skip_list(&self) -> Seq<Seq<char>> {
        seq![self.args.padding@, self.args.unknown@]
    }

    /// The vocabulary built from both training texts: the padding token at
    /// id 0, then every distinct non-stopword token in first-appearance
    /// order (text a before text b within a sample), then the unknown
    /// token as the last id.
    pub open spec fn spec_vocab(&self, samples: Seq<SimilaritySample>) -> Seq<Seq<char>> {
        spec_add_token_lists(
            seq![self.args.padding@],
            self.skip_list(),
            self.stopwords.deep_view(),
            spec_similarity_token_lists(samples, self.args.with_lang_en),
        ).push(self.args.unknown@)
    }

    /// The id sequence of a text under the built vocabulary, before
    /// padding/truncation.
    pub open spec fn spec_word_ids(&self, text: Seq<char>) -> Seq<usize> {
        spec_token_ids(self.vocab.deep_view(), spec_tokenize(text, self.args.with_lang_en))
    }

    /// Encode one sample: look both texts' tokens up (missing tokens become
    /// the unknown id) and pad or truncate each to the fixed width.
    pub fn encode_sample(&self, s: &SimilaritySample) -> (r: SimilarityRecord)
        requires
            self.wf(),
        ensures
            self.encodes_to(*s, Ok(r)),
    {
        let tokens_a = tokenize(s.0.as_str(), self.args.with_lang_en);
        let tokens_b = tokenize(s.1.as_str(), self.args.with_lang_en);
        let ids_a = encode_token_ids(&self.vocab, &tokens_a);
        let ids_b = encode_token_ids(&self.vocab, &tokens_b);
        SimilarityRecord::new(ids_a, ids_b, s.2, self.args.sequence_length)
    }
}

/// Relies on rayon (`Vec::into_par_iter().map(..).collect::<Vec<_>>()`):
/// collecting a parallel map into a vector yields every mapped value in
/// input order; the closure only calls the verified per-sample encoder.
#[verifier::external_body]
fn par_encode(b: &SimilarityBuilder, samples: Vec<SimilaritySample>) -> (r: Vec<SimilarityRecord>)
    requires
        b.wf(),
    ensures
        r@.len() == samples@.len(),
        forall|i: int|
            0 <= i < samples@.len() ==> b.encodes_to(#[trigger] samples@[i], Ok(r@[i])),
{
    samples.into_par_iter().map(|s| b.encode_sample(&s)).collect()
}

// ---------------------------------------------------------------------------
// Columnar serialization of similarity records
// ---------------------------------------------------------------------------
/// The 32-bit column of position `k` of the first text over rows `lo..hi`.
pub open spec fn spec_front_col(
    recs: Seq<SimilarityRecord>,
    lo: int,
    hi: int,
    k: int,
) -> Seq<u32> {
    Seq::new((hi - lo) as nat, |i: int| recs[lo + i].front_word_ids@[k] as u32)
}

/// The 32-bit column of position `k` of the second text over rows `lo..hi`.
pub open spec fn spec_back_col(recs: Seq<SimilarityRecord>, lo: int, hi: int, k: int) -> Seq<u32> {
    Seq::new((hi - lo) as nat, |i: int| recs[lo + i].back_word_ids@[k] as u32)
}

/// The 8-bit label column over rows `lo..hi`.
pub open spec fn spec_sim_label_col(recs: Seq<SimilarityRecord>, lo: int, hi: int) -> Seq<u8> {
    Seq::new((hi - lo) as nat, |i: int| recs[lo + i].label)
}

/// Every token id of both sequences fits its 32-bit storage column.
pub open spec fn spec_sim_ids_fit(recs: Seq<SimilarityRecord>) -> bool {
    &&& forall|i: int, k: int|
        0 <= i < recs.len() && 0 <= k < recs[i].front_word_ids@.len()
            ==> #[trigger] recs[i].front_word_ids@[k] <= u32::MAX
    &&& forall|i: int, k: int|
        0 <= i < recs.len() && 0 <= k < recs[i].back_word_ids@.len()
            ==> #[trigger] recs[i].back_word_ids@[k] <= u32::MAX
}

/// The similarity schema: `text_a_0 .. text_a_{L-1}`, `text_b_0 ..
/// text_b_{L-1}` (wide), then `label`.
pub open spec fn spec_sim_fields_ok(fields: Seq<FieldDef>, max_length: int) -> bool {
    &&& fields.len() == 2 * max_length + 1
    &&& forall|k: int|
        0 <= k < max_length ==> (#[trigger] fields[k]).name@ == spec_field_name("text_a_"@, k)
            && fields[k].wide
    &&& forall|k: int|
        0 <= k < max_length ==> (#[trigger] fields[max_length + k]).name@ == spec_field_name(
            "text_b_"@,
            k,
        ) && fields[max_length + k].wide
    &&& fields[2 * max_length].name@ == "label"@
    &&& !fields[2 * max_length].wide
}

/// Batch `b`: the first text's columns, the second text's columns, then
/// the label column, each holding rows `lo..hi`.
pub open spec fn spec_sim_batch_ok(
    recs: Seq<SimilarityRecord>,
    batch: BatchData,
    b: int,
    max_length: int,
) -> bool {
    &&& batch.columns@.len() == 2 * max_length + 1
    &&& forall|k: int|
        0 <= k < max_length ==> spec_is_u32_col(
            #[trigger] batch.columns@[k],
            spec_front_col(recs, spec_chunk_lo(b), spec_chunk_hi(b, recs.len() as int), k),
        )
    &&& forall|k: int|
        0 <= k < max_length ==> spec_is_u32_col(
            #[trigger] batch.columns@[max_length + k],
            spec_back_col(recs, spec_chunk_lo(b), spec_chunk_hi(b, recs.len() as int), k),
        )
    &&& spec_is_u8_col(
        batch.columns@[2 * max_length],
        spec_sim_label_col(recs, spec_chunk_lo(b), spec_chunk_hi(b, recs.len() as int)),
    )
}

impl IDataset<SimilaritySample, SimilarityRecord> for SimilarityBuilder {
    /// The two special tokens must differ, or no vocabulary can bind the
    /// padding token to id 0 and the unknown token to the last id.
    open spec fn init_pre(&self) -> bool {
        self.args.padding@ != self.args.unknown@
    }

    open spec fn wf(&self) -> bool {
        &&& self.vocab.deep_view().len() >= 2
        &&& self.vocab.deep_view()[0] == self.args.padding@
        &&& self.vocab.deep_view().last() == self.args.unknown@
        &&& spec_distinct(self.vocab.deep_view())
    }

    open spec fn inited(&self, old_self: Self, train: Seq<SimilaritySample>) -> bool {
        &&& self.args == old_self.args
        &&& self.stopwords == old_self.stopwords
        &&& self.vocab.deep_view() == old_self.spec_vocab(train)
    }

    open spec fn parses_to(
        &self,
        lines: Seq<Seq<char>>,
        r: Result<Vec<SimilaritySample>, BuildError>,
    ) -> bool {
        match r {
            Ok(ss) => spec_parse_sim(
                self.args.sent_sep@,
                self.args.label_sep@,
                self.args.with_bool,
                lines,
            ) == Ok::<_, BuildError>(spec_sim_triples(ss@)),
            Err(e) => spec_parse_sim(
                self.args.sent_sep@,
                self.args.label_sep@,
                self.args.with_bool,
                lines,
            ) == Err::<Seq<(Seq<char>, Seq<char>, u8)>, _>(e),
        }
    }

    open spec fn encodes_to(
        &self,
        s: SimilaritySample,
        r: Result<SimilarityRecord, BuildError>,
    ) -> bool {
        match r {
            Ok(rec) => {
                &&& rec.front_word_ids@ == spec_pad_truncate(
                    self.spec_word_ids(s.0@),
                    self.args.sequence_length as nat,
                )
                &&& rec.back_word_ids@ == spec_pad_truncate(
                    self.spec_word_ids(s.1@),
                    self.args.sequence_length as nat,
                )
                &&& rec.label == s.2
            },
            Err(_) => false,
        }
    }

    open spec fn record_wf(&self, rec: SimilarityRecord) -> bool {
        rec.front_word_ids@.len() == self.args.sequence_length && rec.back_word_ids@.len()
            == self.args.sequence_length
    }

    open spec fn serializes_to(
        &self,
        records: Seq<SimilarityRecord>,
        r: Result<SplitData, BuildError>,
    ) -> bool {
        match r {
            Ok(sd) => {
                &&& spec_sim_ids_fit(records)
                &&& spec_sim_fields_ok(sd.fields@, self.args.sequence_length as int)
                &&& sd.batches@.len() == spec_num_chunks(records.len() as int)
                &&& forall|b: int|
                    0 <= b < sd.batches@.len() ==> spec_sim_batch_ok(
                        records,
                        #[trigger] sd.batches@[b],
                        b,
                        self.args.sequence_length as int,
                    )
            },
            Err(e) => e == BuildError::IdTooWide && !spec_sim_ids_fit(records),
        }
    }

    open spec fn vocab_lines_of(&self, lines: Seq<Seq<char>>) -> bool {
        &&& lines.len() == self.vocab.deep_view().len()
        &&& forall|i: int|
            0 <= i < lines.len() ==> #[trigger] lines[i] == spec_table_line(
                i,
                self.vocab.deep_view()[i],
            )
    }

    open spec fn out_path(&self) -> Seq<char> {
        match self.args.output_path {
            Some(p) => p@,
            None => self.args.path@,
        }
    }

    fn init(&mut self, train_samples: &Vec<SimilaritySample>) {
        let ghost old_self = *self;
        let mut skip: Vec<String> = Vec::new();
        skip.push(self.args.padding.clone());
        skip.push(self.args.unknown.clone());
        proof {
            assert(skip.deep_view() =~= self.skip_list());
        }
        let mut vocab: Vec<String> = Vec::new();
        vocab.push(self.args.padding.clone());
        let ghost entries0 = vocab.deep_view();
        proof {
            assert(entries0 =~= seq![self.args.padding@]);
        }
        let ghost lists = spec_similarity_token_lists(train_samples@, self.args.with_lang_en);
        let ghost skipdv = skip.deep_view();
        let ghost stopdv = self.stopwords.deep_view();
        let n = train_samples.len();
        let mut i: usize = 0;
        proof {
            assert(lists.skip(0) =~= lists);
        }
        while i < n
            invariant
                n == train_samples@.len(),
                0 <= i <= n,
                *self == old_self,
                skipdv == skip.deep_view(),
                stopdv == self.stopwords.deep_view(),
                lists == spec_similarity_token_lists(train_samples@, self.args.with_lang_en),
                lists.len() == 2 * n,
                spec_add_token_lists(vocab.deep_view(), skipdv, stopdv, lists.skip(2 * i as int))
                    == spec_add_token_lists(entries0, skipdv, stopdv, lists),
            decreases n - i,
        {
            let ghost v0 = vocab.deep_view();
            let ghost rest = lists.skip(2 * i as int);
            assert(rest.len() > 0 && rest[0] == lists[2 * i as int]);
            assert(rest.drop_first() =~= lists.skip(2 * i as int + 1));
            let tokens_a = tokenize(train_samples[i].0.as_str(), self.args.with_lang_en);
            assert(tokens_a.deep_view() == lists[2 * i as int]);
            add_tokens(&mut vocab, &skip, &self.stopwords, &tokens_a);
            proof {
                assert(spec_add_token_lists(v0, skipdv, stopdv, rest) == spec_add_token_lists(
                    vocab.deep_view(),
                    skipdv,
                    stopdv,
                    lists.skip(2 * i as int + 1),
                ));
            }
            let ghost v1 = vocab.deep_view();
            let ghost rest2 = lists.skip(2 * i as int + 1);
            assert(rest2.len() > 0 && rest2[0] == lists[2 * i as int + 1]);
            assert(rest2.drop_first() =~= lists.skip(2 * i as int + 2));
            let tokens_b = tokenize(train_samples[i].1.as_str(), self.args.with_lang_en);
            assert(tokens_b.deep_view() == lists[2 * i as int + 1]);
            add_tokens(&mut vocab, &skip, &self.stopwords, &tokens_b);
            proof {
                assert(spec_add_token_lists(v1, skipdv, stopdv, rest2) == spec_add_token_lists(
                    vocab.deep_view(),
                    skipdv,
                    stopdv,
                    lists.skip(2 * i as int + 2),
                ));
                assert(lists.skip(2 * (i + 1) as int) =~= lists.skip(2 * i as int + 2));
            }
            i = i + 1;
        }
        proof {
            assert(lists.skip(2 * n as int) =~= Seq::<Seq<Seq<char>>>::empty());
        }
        let ghost collected = vocab.deep_view();
        let ghost pad = self.args.padding@;
        let ghost unk = self.args.unknown@;
        proof {
            assert(collected == spec_add_token_lists(entries0, skipdv, stopdv, lists));
            lemma_add_token_lists_props(entries0, skipdv, stopdv, lists);
            assert(spec_distinct(entries0));
            assert(collected.take(1) == entries0);
            assert(collected[0] == collected.take(1)[0]);
            assert(collected[0] == pad);
            assert(skipdv[1] == unk);
            assert(skipdv.contains(unk));
            assert forall|k: int| 0 <= k < collected.len() implies collected[k] != unk by {
                if k == 0 {
                    assert(collected[k] == pad);
                } else {
                    assert(!skipdv.contains(collected[k]));
                }
            }
        }
        vocab.push(self.args.unknown.clone());
        proof {
            assert(vocab.deep_view() =~= collected.push(unk));
            let dv = vocab.deep_view();
            assert(dv[0] == pad);
            assert(dv.last() == unk);
            assert forall|a: int, b: int| 0 <= a < b < dv.len() implies dv[a] != dv[b] by {
                if b == dv.len() - 1 {
                    assert(dv[a] == collected[a]);
                    assert(collected[a] != unk);
                } else {
                    assert(dv[a] == collected[a] && dv[b] == collected[b]);
                }
            }
        }
        self.vocab = vocab;
    }

    fn read_dataset(&self, lines: &Vec<String>) -> (r: Result<Vec<SimilaritySample>, BuildError>) {
        let ghost ssep = self.args.sent_sep@;
        let ghost lsep = self.args.label_sep@;
        let ghost wb = self.args.with_bool;
        let ghost lv = lines.deep_view();
        let mut out: Vec<SimilaritySample> = Vec::new();
        let n = lines.len();
        let mut i: usize = 0;
        proof {
            assert(lv.skip(0) =~= lv);
            assert(spec_sim_triples(out@) =~= Seq::<(Seq<char>, Seq<char>, u8)>::empty());
        }
        while i < n
            invariant
                n == lines@.len(),
                0 <= i <= n,
                ssep == self.args.sent_sep@,
                lsep == self.args.label_sep@,
                wb == self.args.with_bool,
                lv == lines.deep_view(),
                lv.len() == n,
                spec_parse_sim(ssep, lsep, wb, lv) == match spec_parse_sim(
                    ssep,
                    lsep,
                    wb,
                    lv.skip(i as int),
                ) {
                    Ok(rest) => Ok::<_, BuildError>(spec_sim_triples(out@) + rest),
                    Err(e) => Err(e),
                },
            decreases n - i,
        {
            let ghost rest_lines = lv.skip(i as int);
            let ghost triples0 = spec_sim_triples(out@);
            assert(rest_lines.len() > 0 && rest_lines[0] == lv[i as int]);
            assert(rest_lines.drop_first() =~= lv.skip(i as int + 1));
            assert(lv[i as int] == lines@[i as int]@);
            match split_once_str(lines[i].as_str(), self.args.label_sep.as_str()) {
                Some(p) => {
                    match split_once_str(p.0.as_str(), self.args.sent_sep.as_str()) {
                        Some(q) => {
                            let label: u8 = if self.args.with_bool {
                                match parse_bool(p.1.as_str()) {
                                    Some(bv) => if bv {
                                        1
                                    } else {
                                        0
                                    },
                                    None => {
                                        assert(spec_sim_label(wb, p.1@) is None);
                                        return Err(BuildError::BadLabelValue);
                                    },
                                }
                            } else {
                                match parse_u8(p.1.as_str()) {
                                    Some(v) => v,
                                    None => {
                                        assert(spec_sim_label(wb, p.1@) is None);
                                        return Err(BuildError::BadLabelValue);
                                    },
                                }
                            };
                            assert(spec_sim_label(wb, p.1@) == Some(label));
                            let sample = SimilaritySample::new(q.0.as_str(), q.1.as_str(), label);
                            let ghost tr = (q.0@, q.1@, label);
                            out.push(sample);
                            proof {
                                assert(spec_sim_triples(out@) =~= triples0.push(tr));
                                assert forall|rest: Seq<(Seq<char>, Seq<char>, u8)>|
                                    #[trigger] (seq![tr] + rest) == seq![tr]
                                    + rest implies triples0 + (seq![tr] + rest) =~= triples0.push(
                                    tr,
                                ) + rest by {}
                            }
                        },
                        None => {
                        },
                    }
                },
                None => {
                },
            }
            i = i + 1;
        }
        proof {
            assert(lv.skip(n as int) =~= Seq::<Seq<char>>::empty());
        }
        Ok(out)
    }

    fn build_dataset(&self, samples: Vec<SimilaritySample>) -> (r: Result<
        Vec<SimilarityRecord>,
        BuildError,
    >) {
        let ghost sv = samples@;
        let rs = par_encode(self, samples);
        proof {
            assert forall|i: int| 0 <= i < sv.len() implies self.record_wf(rs@[i]) by {
                assert(self.encodes_to(sv[i], Ok(rs@[i])));
                lemma_spec_pad_truncate_len(
                    self.spec_word_ids(sv[i].0@),
                    self.args.sequence_length as nat,
                );
                lemma_spec_pad_truncate_len(
                    self.spec_word_ids(sv[i].1@),
                    self.args.sequence_length as nat,
                );
            }
        }
        Ok(rs)
    }

    fn save_vocab(&self) -> (r: Vec<String>) {
        table_lines(&self.vocab)
    }

    fn save_dataset(&self, records: &Vec<SimilarityRecord>) -> (r: Result<SplitData, BuildError>) {
        let ghost rv = records@;
        let max_length = self.args.sequence_length;
        let n = records.len();
        // Validate the 32-bit storage width of both id sequences.
        let mut i: usize = 0;
        while i < n
            invariant
                rv == records@,
                n == rv.len(),
                0 <= i <= n,
                forall|a: int| 0 <= a < rv.len() ==> self.record_wf(#[trigger] rv[a]),
                max_length == self.args.sequence_length,
                forall|a: int, k: int|
                    0 <= a < i && 0 <= k < rv[a].front_word_ids@.len()
                        ==> #[trigger] rv[a].front_word_ids@[k] <= u32::MAX,
                forall|a: int, k: int|
                    0 <= a < i && 0 <= k < rv[a].back_word_ids@.len()
                        ==> #[trigger] rv[a].back_word_ids@[k] <= u32::MAX,
            decreases n - i,
        {
            let w = records[i].front_word_ids.len();
            let mut k: usize = 0;
            while k < w
                invariant
                    rv == records@,
                    0 <= i < rv.len(),
                    w == rv[i as int].front_word_ids@.len(),
                    0 <= k <= w,
                    forall|kk: int|
                        0 <= kk < k ==> #[trigger] rv[i as int].front_word_ids@[kk] <= u32::MAX,
                decreases w - k,
            {
                if records[i].front_word_ids[k] > u32::MAX as usize {
                    assert(rv[i as int].front_word_ids@[k as int] > u32::MAX);
                    assert(!spec_sim_ids_fit(rv));
                    return Err(BuildError::IdTooWide);
                }
                k = k + 1;
            }
            let w2 = records[i].back_word_ids.len();
            let mut k2: usize = 0;
            while k2 < w2
                invariant
                    rv == records@,
                    0 <= i < rv.len(),
                    w2 == rv[i as int].back_word_ids@.len(),
                    0 <= k2 <= w2,
                    forall|kk: int|
                        0 <= kk < k2 ==> #[trigger] rv[i as int].back_word_ids@[kk] <= u32::MAX,
                decreases w2 - k2,
            {
                if records[i].back_word_ids[k2] > u32::MAX as usize {
                    assert(rv[i as int].back_word_ids@[k2 as int] > u32::MAX);
                    assert(!spec_sim_ids_fit(rv));
                    return Err(BuildError::IdTooWide);
                }
                k2 = k2 + 1;
            }
            i = i + 1;
        }
        assert(spec_sim_ids_fit(rv));
        // Schema: text_a_0 .. , text_b_0 .. , then the label column.
        let mut fields: Vec<FieldDef> = Vec::new();
        let mut k: usize = 0;
        while k < max_length
            invariant
                0 <= k <= max_length,
                fields@.len() == k,
                forall|kk: int|
                    0 <= kk < k ==> (#[trigger] fields@[kk]).name@ == spec_field_name(
                        "text_a_"@,
                        kk,
                    ) && fields@[kk].wide,
            decreases max_length - k,
        {
            let name = field_name("text_a_", k);
            fields.push(FieldDef { name, wide: true });
            k = k + 1;
        }
        let mut k2: usize = 0;
        while k2 < max_length
            invariant
                0 <= k2 <= max_length,
                max_length == self.args.sequence_length,
                fields@.len() == max_length + k2,
                forall|kk: int|
                    0 <= kk < max_length ==> (#[trigger] fields@[kk]).name@ == spec_field_name(
                        "text_a_"@,
                        kk,
                    ) && fields@[kk].wide,
                forall|kk: int|
                    0 <= kk < k2 ==> (#[trigger] fields@[max_length + kk]).name@ == spec_field_name(
                        "text_b_"@,
                        kk,
                    ) && fields@[max_length + kk].wide,
            decreases max_length - k2,
        {
            let name = field_name("text_b_", k2);
            fields.push(FieldDef { name, wide: true });
            k2 = k2 + 1;
        }
        fields.push(FieldDef { name: "label".to_owned(), wide: false });
        assert(spec_sim_fields_ok(fields@, max_length as int));
        // Batches of CHUNK_SIZE records, the last one partial.
        let mut batches: Vec<BatchData> = Vec::new();
        let mut lo: usize = 0;
        let ghost mut b: int = 0;
        while lo < n
            invariant
                rv == records@,
                n == rv.len(),
                forall|a: int| 0 <= a < rv.len() ==> self.record_wf(#[trigger] rv[a]),
                max_length == self.args.sequence_length,
                0 <= b,
                lo as int == if b * (CHUNK_SIZE as int) <= n as int {
                    b * (CHUNK_SIZE as int)
                } else {
                    n as int
                },
                b == 0 || (b - 1) * (CHUNK_SIZE as int) < n as int,
                batches@.len() == b,
                forall|bb: int|
                    0 <= bb < b ==> spec_sim_batch_ok(
                        rv,
                        #[trigger] batches@[bb],
                        bb,
                        max_length as int,
                    ),
            decreases n - lo,
        {
            assert(lo as int == b * (CHUNK_SIZE as int));
            let hi = if n - lo > CHUNK_SIZE {
                lo + CHUNK_SIZE
            } else {
                n
            };
            assert(hi as int == spec_chunk_hi(b, n as int));
            let mut cols: Vec<ColumnData> = Vec::new();
            let mut k: usize = 0;
            while k < max_length
                invariant
                    rv == records@,
                    n == rv.len(),
                    forall|a: int| 0 <= a < rv.len() ==> self.record_wf(#[trigger] rv[a]),
                    max_length == self.args.sequence_length,
                    lo as int == spec_chunk_lo(b),
                    hi as int == spec_chunk_hi(b, n as int),
                    lo <= hi <= n,
                    0 <= k <= max_length,
                    cols@.len() == k,
                    forall|kk: int|
                        0 <= kk < k ==> spec_is_u32_col(
                            #[trigger] cols@[kk],
                            spec_front_col(rv, lo as int, hi as int, kk),
                        ),
                decreases max_length - k,
            {
                let mut col: Vec<u32> = Vec::new();
                let mut ri: usize = lo;
                while ri < hi
                    invariant
                        rv == records@,
                        n == rv.len(),
                        forall|a: int| 0 <= a < rv.len() ==> self.record_wf(#[trigger] rv[a]),
                        max_length == self.args.sequence_length,
                        0 <= k < max_length,
                        lo <= ri <= hi <= n,
                        col@ == spec_front_col(rv, lo as int, hi as int, k as int).take(ri - lo),
                    decreases hi - ri,
                {
                    assert(rv[ri as int].front_word_ids@.len() == max_length);
                    col.push(records[ri].front_word_ids[k] as u32);
                    assert(col@ =~= spec_front_col(rv, lo as int, hi as int, k as int).take(
                        ri - lo + 1,
                    ));
                    ri = ri + 1;
                }
                assert(col@ =~= spec_front_col(rv, lo as int, hi as int, k as int));
                cols.push(ColumnData::U32(col));
                k = k + 1;
            }
            let mut k2: usize = 0;
            while k2 < max_length
                invariant
                    rv == records@,
                    n == rv.len(),
                    forall|a: int| 0 <= a < rv.len() ==> self.record_wf(#[trigger] rv[a]),
                    max_length == self.args.sequence_length,
                    lo as int == spec_chunk_lo(b),
                    hi as int == spec_chunk_hi(b, n as int),
                    lo <= hi <= n,
                    0 <= k2 <= max_length,
                    cols@.len() == max_length + k2,
                    forall|kk: int|
                        0 <= kk < max_length ==> spec_is_u32_col(
                            #[trigger] cols@[kk],
                            spec_front_col(rv, lo as int, hi as int, kk),
                        ),
                    forall|kk: int|
                        0 <= kk < k2 ==> spec_is_u32_col(
                            #[trigger] cols@[max_length + kk],
                            spec_back_col(rv, lo as int, hi as int, kk),
                        ),
                decreases max_length - k2,
            {
                let mut col: Vec<u32> = Vec::new();
                let mut ri: usize = lo;
                while ri < hi
                    invariant
                        rv == records@,
                        n == rv.len(),
                        forall|a: int| 0 <= a < rv.len() ==> self.record_wf(#[trigger] rv[a]),
                        max_length == self.args.sequence_length,
                        0 <= k2 < max_length,
                        lo <= ri <= hi <= n,
                        col@ == spec_back_col(rv, lo as int, hi as int, k2 as int).take(ri - lo),
                    decreases hi - ri,
                {
                    assert(rv[ri as int].back_word_ids@.len() == max_length);
                    col.push(records[ri].back_word_ids[k2] as u32);
                    assert(col@ =~= spec_back_col(rv, lo as int, hi as int, k2 as int).take(
                        ri - lo + 1,
                    ));
                    ri = ri + 1;
                }
                assert(col@ =~= spec_back_col(rv, lo as int, hi as int, k2 as int));
                cols.push(ColumnData::U32(col));
                k2 = k2 + 1;
            }
            let mut lab: Vec<u8> = Vec::new();
            let mut ri: usize = lo;
            while ri < hi
                invariant
                    rv == records@,
                    n == rv.len(),
                    lo <= ri <= hi <= n,
                    lab@ == spec_sim_label_col(rv, lo as int, hi as int).take(ri - lo),
                decreases hi - ri,
            {
                lab.push(records[ri].label);
                assert(lab@ =~= spec_sim_label_col(rv, lo as int, hi as int).take(ri - lo + 1));
                ri = ri + 1;
            }
            assert(lab@ =~= spec_sim_label_col(rv, lo as int, hi as int));
            cols.push(ColumnData::U8(lab));
            let batch = BatchData { columns: cols };
            proof {
                assert(batch.columns@.len() == 2 * max_length + 1);
                assert(spec_sim_batch_ok(rv, batch, b, max_length as int));
            }
            batches.push(batch);
            proof {
                b = b + 1;
            }
            lo = hi;
        }
        proof {
            if b == 0 {
                assert(n == 0);
                assert(spec_num_chunks(0) == 0);
            } else {
                assert(b == spec_num_chunks(n as int)) by (nonlinear_arith)
                    requires
                        (b - 1) * (CHUNK_SIZE as int) < n as int,
                        b * (CHUNK_SIZE as int) >= n as int,
                        CHUNK_SIZE == 100,
                        0 < b,
                ;
            }
        }
        Ok(SplitData { fields, batches })
    }

    fn get_output_path(&self) -> (r: String) {
        match &self.args.output_path {
            Some(p) => p.clone(),
            None => self.args.path.clone(),
        }
    }
}

// ---------------------------------------------------------------------------
// Laws
// ---------------------------------------------------------------------------
/// In any built vocabulary the padding token is bound to id 0 and the
/// unknown token to the last id, `vocabulary_size - 1`.
pub proof fn lemma_similarity_special_token_ids(b: SimilarityBuilder)
    requires
        b.wf(),
    ensures
        spec_find(b.vocab.deep_view(), b.args.padding@) == Some(0int),
        spec_find(b.vocab.deep_view(), b.args.unknown@) == Some(b.vocab.deep_view().len() - 1),
{
    lemma_special_ids(b.vocab.deep_view(), b.args.padding@, b.args.unknown@);
}

/// A token present in the vocabulary always encodes to its vocabulary id,
/// and a token absent from it always encodes to the unknown id — in every
/// split and in either text position, because the encoded id depends only
/// on the frozen vocabulary and the token.
pub proof fn lemma_similarity_lookup_round_trip(b: SimilarityBuilder, tok: Seq<char>)
    requires
        b.wf(),
    ensures
        b.vocab.deep_view().contains(tok) ==> Some(
            crate::lexicon::spec_token_id(b.vocab.deep_view(), tok) as int,
        ) == spec_find(b.vocab.deep_view(), tok),
        !b.vocab.deep_view().contains(tok) ==> crate::lexicon::spec_token_id(
            b.vocab.deep_view(),
            tok,
        ) as int == b.vocab.deep_view().len() - 1,
{
    broadcast use vstd::std_specs::vec::axiom_spec_len;

    crate::lexicon::lemma_find_contains(b.vocab.deep_view(), tok);
    crate::lexicon::lemma_find_from_props(b.vocab.deep_view(), tok, 0);
    assert(vstd::std_specs::vec::spec_vec_len(&b.vocab) == b.vocab@.len());
}

/// Re-running a build with identical configuration and inputs yields
/// records with identical content: parsing and encoding are functional in
/// the builder and its inputs.
pub proof fn lemma_similarity_deterministic(
    b: SimilarityBuilder,
    lines: Seq<Seq<char>>,
    s: SimilaritySample,
    r1: Result<Vec<SimilaritySample>, BuildError>,
    r2: Result<Vec<SimilaritySample>, BuildError>,
    e1: Result<SimilarityRecord, BuildError>,
    e2: Result<SimilarityRecord, BuildError>,
)
    requires
        b.parses_to(lines, r1),
        b.parses_to(lines, r2),
        b.encodes_to(s, e1),
        b.encodes_to(s, e2),
    ensures
        r1 is Ok <==> r2 is Ok,
        r1 is Ok ==> spec_sim_triples(r1->Ok_0@) == spec_sim_triples(r2->Ok_0@),
        r1 is Err ==> r1 == r2,
        e1 is Ok && e2 is Ok,
        e1->Ok_0.front_word_ids@ == e2->Ok_0.front_word_ids@,
        e1->Ok_0.back_word_ids@ == e2->Ok_0.back_word_ids@,
        e1->Ok_0.label == e2->Ok_0.label,
{
}

} // verus!
