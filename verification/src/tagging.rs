//! Token/tag sequence labeling: blank-line-delimited groups of
//! `token<SEP>tag` lines, a vocabulary built from the training tokens, a
//! tag table with id 0 reserved for the padding tag, and records of two
//! index-aligned id sequences of exactly `max_length`. A sample longer
//! than `max_length` fails the build instead of being truncated.
use vstd::prelude::*;
use rayon::iter::IntoParallelIterator;
use rayon::iter::ParallelIterator;
use crate::columns::BatchData;
use crate::columns::ColumnData;
use crate::columns::FieldDef;
use crate::columns::SplitData;
use crate::columns::CHUNK_SIZE;
use crate::columns::field_name;
use crate::columns::spec_chunk_hi;
use crate::columns::spec_chunk_lo;
use crate::columns::spec_field_name;
use crate::columns::spec_is_u32_col;
use crate::columns::spec_is_u8_col;
use crate::columns::spec_num_chunks;
use crate::errors::BuildError;
use crate::lexicon::add_tokens;
use crate::lexicon::copy_strings;
use crate::lexicon::lemma_add_token_lists_props;
use crate::lexicon::lemma_special_ids;
use crate::lexicon::lemma_find_from_props;
use crate::lexicon::encode_tag_ids;
use crate::lexicon::encode_token_ids;
use crate::lexicon::spec_add_token_lists;
use crate::lexicon::spec_distinct;
use crate::lexicon::spec_find;
use crate::lexicon::spec_table_line;
use crate::lexicon::spec_tag_id;
use crate::lexicon::spec_tag_ids;
use crate::lexicon::spec_token_ids;
use crate::lexicon::table_lines;
use crate::text::spec_split_once;
use crate::text::split_once_str;
use crate::traits::IDataset;
use crate::lemma_spec_pad_truncate_len;
use crate::pad_truncate;
use crate::spec_pad_truncate;

verus! {

/// Configuration of a tagging build. As in classification,
/// `max_vocab_size` and `with_vocab` are carried but alter nothing.
pub struct TaggingArgs {
    /// Directory of the dataset files.
    pub path: String,
    /// Directory for the produced files; the input path when absent.
    pub output_path: Option<String>,
    /// Carried but unused: a user-supplied vocabulary is not consulted.
    pub with_vocab: bool,
    /// Carried but unused: no vocabulary-size cap is applied.
    pub max_vocab_size: usize,
    /// Fixed width every id sequence is padded to; longer samples fail.
    pub sequence_length: usize,
    /// Optional stopwords file path; its lines are loaded separately.
    pub stopwords_file: Option<String>,
    /// Separator between token and tag on one line.
    pub separator: String,
    /// The unknown token: always the last vocabulary id.
    pub unknown: String,
    /// The padding token: always vocabulary id 0.
    pub padding: String,
    /// The padding tag: always tag id 0, distinct from every data tag.
    pub padding_tag: String,
}

/// One parsed group: parallel, index-aligned token and tag sequences.
#[derive(Debug)]
pub struct TaggingSample {
    pub tokens: Vec<String>,
    pub tags: Vec<String>,
}

impl TaggingSample {
    pub fn new(tokens: Vec<String>, tags: Vec<String>) -> (r: Self)
        ensures
            r.tokens == tokens,
            r.tags == tags,
    {
        TaggingSample { tokens, tags }
    }
}

/// One encoded row: index-aligned token and tag id sequences, each of
/// exactly `max_length`.
#[derive(Debug)]
pub struct TaggingRecord {
    pub token_ids: Vec<usize>,
    pub tag_ids: Vec<usize>,
}

impl TaggingRecord {
    /// Pad both sequences with 0 up to `max_length`. A token sequence
    /// longer than `max_length` is refused: tagging never truncates, since
    /// that would silently drop token/tag pairs.
    pub fn new(token_ids: Vec<usize>, tag_ids: Vec<usize>, max_length: usize) -> (r: Result<
        Self,
        BuildError,
    >)
        ensures
            match r {
                Ok(rec) => token_ids@.len() <= max_length && rec.token_ids@ == spec_pad_truncate(
                    token_ids@,
                    max_length as nat,
                ) && rec.tag_ids@ == spec_pad_truncate(tag_ids@, max_length as nat)
                    && rec.token_ids@.len() == max_length && rec.tag_ids@.len() == max_length,
                Err(e) => e == BuildError::SequenceTooLong && token_ids@.len() > max_length,
            },
    {
        if token_ids.len() > max_length {
            return Err(BuildError::SequenceTooLong);
        }
        proof {
            lemma_spec_pad_truncate_len(token_ids@, max_length as nat);
            lemma_spec_pad_truncate_len(tag_ids@, max_length as nat);
        }
        Ok(
            TaggingRecord {
                token_ids: pad_truncate(token_ids, max_length),
                tag_ids: pad_truncate(tag_ids, max_length),
            },
        )
    }
}

/// The tagging dataset builder: configuration plus the vocabulary, tag
/// and stopword tables.
pub struct TaggingBuilder {
    pub args: TaggingArgs,
    pub vocab: Vec<String>,
    pub tags: Vec<String>,
    pub stopwords: Vec<String>,
}

/// The token list of every sample.
pub open spec fn spec_tagging_token_lists(samples: Seq<TaggingSample>) -> Seq<Seq<Seq<char>>> {
    Seq::new(samples.len(), |i: int| samples[i].tokens.deep_view())
}

/// The tag list of every sample.
pub open spec fn spec_tagging_tag_lists(samples: Seq<TaggingSample>) -> Seq<Seq<Seq<char>>> {
    Seq::new(samples.len(), |i: int| samples[i].tags.deep_view())
}

/// Group the lines on blank lines and split each line of a group on the
/// separator; `cur` is the pending group's (token, tag) pairs. Lines that
/// do not split are dropped from their group; empty groups stay.
pub open spec fn spec_group_acc(
    sep: Seq<char>,
    lines: Seq<Seq<char>>,
    cur: Seq<(Seq<char>, Seq<char>)>,
) -> Seq<Seq<(Seq<char>, Seq<char>)>>
    decreases lines.len(),
{
    if lines.len() == 0 {
        seq![cur]
    } else if lines[0].len() == 0 {
        seq![cur] + spec_group_acc(sep, lines.drop_first(), Seq::empty())
    } else {
        match spec_split_once(lines[0], sep) {
            Some(p) => spec_group_acc(sep, lines.drop_first(), cur.push(p)),
            None => spec_group_acc(sep, lines.drop_first(), cur),
        }
    }
}

/// The (token, tag) pair groups of a tagging split's lines.
pub open spec fn spec_tag_groups(sep: Seq<char>, lines: Seq<Seq<char>>) -> Seq<
    Seq<(Seq<char>, Seq<char>)>,
> {
    spec_group_acc(sep, lines, Seq::empty())
}

/// The first components of a pair sequence.
pub open spec fn spec_firsts(pairs: Seq<(Seq<char>, Seq<char>)>) -> Seq<Seq<char>> {
    Seq::new(pairs.len(), |i: int| pairs[i].0)
}

/// The second components of a pair sequence.
pub open spec fn spec_seconds(pairs: Seq<(Seq<char>, Seq<char>)>) -> Seq<Seq<char>> {
    Seq::new(pairs.len(), |i: int| pairs[i].1)
}

impl TaggingBuilder {
    pub fn new(args: TaggingArgs) -> (r: Self)
        ensures
            r.args == args,
            r.vocab@.len() == 0,
            r.tags@.len() == 0,
            r.stopwords@.len() == 0,
    {
        TaggingBuilder {
            args,
            vocab: Vec::new(),
            tags: Vec::new(),
            stopwords: Vec::new(),
        }
    }

    /// Install the stopwords: one excluded token per line.
    pub fn load_stopwords(&mut self, lines: &Vec<String>)
        ensures
            final(self).stopwords.deep_view() == lines.deep_view(),
            final(self).args == old(self).args,
            final(self).vocab == old(self).vocab,
            final(self).tags == old(self).tags,
    {
        self.stopwords = copy_strings(lines);
    }

    /// The reserved strings never collected as ordinary tokens.
    pub open spec fn skip_list(&self) -> Seq<Seq<char>> {
        seq![self.args.padding@, self.args.unknown@]
    }

    /// The vocabulary built from the training tokens: the padding token at
    /// id 0, then every distinct non-stopword token in first-appearance
    /// order, then the unknown token as the last id.
    pub open spec fn spec_vocab(&self, samples: Seq<TaggingSample>) -> Seq<Seq<char>> {
        spec_add_token_lists(
            seq![self.args.padding@],
            self.skip_list(),
            self.stopwords.deep_view(),
            spec_tagging_token_lists(samples),
        ).push(self.args.unknown@)
    }

    /// The tag table built from the training tags: the padding tag at id
    /// 0, then every distinct data tag in first-appearance order.
    pub open spec fn spec_tag_table(&self, samples: Seq<TaggingSample>) -> Seq<Seq<char>> {
        spec_add_token_lists(
            seq![self.args.padding_tag@],
            seq![self.args.padding_tag@],
            Seq::empty(),
            spec_tagging_tag_lists(samples),
        )
    }

    /// Encode one sample: tokens to vocabulary ids (missing tokens become
    /// the unknown id), tags to tag-table ids (missing tags become the
    /// padding tag id 0), both padded with 0 to the fixed width; a sample
    /// longer than the fixed width fails.
    pub fn encode_sample(&self, s: &TaggingSample) -> (r: Result<TaggingRecord, BuildError>)
        requires
            self.wf(),
        ensures
            self.encodes_to(*s, r),
    {
        let token_ids = encode_token_ids(&self.vocab, &s.tokens);
        let tag_ids = encode_tag_ids(&self.tags, &s.tags);
        TaggingRecord::new(token_ids, tag_ids, self.args.sequence_length)
    }
}

/// Relies on rayon (`Vec::into_par_iter().map(..).collect::<Result<Vec<_>, _>>()`):
/// collecting into `Result` yields `Ok` of every mapped value, in input
/// order, when every call returns `Ok`, and otherwise the error of one
/// failing call; the closure only calls the verified per-sample encoder.
#[verifier::external_body]
fn par_encode(b: &TaggingBuilder, samples: Vec<TaggingSample>) -> (r: Result<
    Vec<TaggingRecord>,
    BuildError,
>)
    requires
        b.wf(),
    ensures
        match r {
            Ok(rs) => rs@.len() == samples@.len() && forall|i: int|
                0 <= i < samples@.len() ==> b.encodes_to(#[trigger] samples@[i], Ok(rs@[i])),
            Err(e) => exists|i: int|
                0 <= i < samples@.len() && b.encodes_to(#[trigger] samples@[i], Err(e)),
        },
{
    samples.into_par_iter().map(|s| b.encode_sample(&s)).collect()
}

// ---------------------------------------------------------------------------
// Columnar serialization of tagging records
// ---------------------------------------------------------------------------
/// The 32-bit token-id column of position `k` over rows `lo..hi`.
pub open spec fn spec_tok_col(recs: Seq<TaggingRecord>, lo: int, hi: int, k: int) -> Seq<u32> {
    Seq::new((hi - lo) as nat, |i: int| recs[lo + i].token_ids@[k] as u32)
}

/// The 8-bit tag-id column of position `k` over rows `lo..hi`.
pub open spec fn spec_tag_col(recs: Seq<TaggingRecord>, lo: int, hi: int, k: int) -> Seq<u8> {
    Seq::new((hi - lo) as nat, |i: int| recs[lo + i].tag_ids@[k] as u8)
}

/// Every token id fits its 32-bit storage column.
pub open spec fn spec_tagging_ids_fit(recs: Seq<TaggingRecord>) -> bool {
    forall|i: int, k: int|
        0 <= i < recs.len() && 0 <= k < recs[i].token_ids@.len() ==> #[trigger] recs[i].token_ids@[k]
            <= u32::MAX
}

/// Every tag id fits its 8-bit storage column.
pub open spec fn spec_tagging_tags_fit(recs: Seq<TaggingRecord>) -> bool {
    forall|i: int, k: int|
        0 <= i < recs.len() && 0 <= k < recs[i].tag_ids@.len() ==> #[trigger] recs[i].tag_ids@[k]
            <= 255
}

/// The tagging schema: `word_k` (wide) and `tag_k` interleaved per
/// position.
pub open spec fn spec_tagging_fields_ok(fields: Seq<FieldDef>, max_length: int) -> bool {
    &&& fields.len() == 2 * max_length
    &&& forall|k: int|
        0 <= k < max_length ==> (#[trigger] fields[2 * k]).name@ == spec_field_name("word_"@, k)
            && fields[2 * k].wide
    &&& forall|k: int|
        0 <= k < max_length ==> (#[trigger] fields[2 * k + 1]).name@ == spec_field_name("tag_"@, k)
            && !fields[2 * k + 1].wide
}

/// Batch `b`: per position one token-id column then one tag-id column,
/// each holding rows `lo..hi`.
pub open spec fn spec_tagging_batch_ok(
    recs: Seq<TaggingRecord>,
    batch: BatchData,
    b: int,
    max_length: int,
) -> bool {
    &&& batch.columns@.len() == 2 * max_length
    &&& forall|k: int|
        0 <= k < max_length ==> spec_is_u32_col(
            #[trigger] batch.columns@[2 * k],
            spec_tok_col(recs, spec_chunk_lo(b), spec_chunk_hi(b, recs.len() as int), k),
        )
    &&& forall|k: int|
        0 <= k < max_length ==> spec_is_u8_col(
            #[trigger] batch.columns@[2 * k + 1],
            spec_tag_col(recs, spec_chunk_lo(b), spec_chunk_hi(b, recs.len() as int), k),
        )
}

impl IDataset<TaggingSample, TaggingRecord> for TaggingBuilder {
    /// The two special tokens must differ, or no vocabulary can bind the
    /// padding token to id 0 and the unknown token to the last id.
    open spec fn init_pre(&self) -> bool {
        self.args.padding@ != self.args.unknown@
    }

    open spec fn wf(&self) -> bool {
        &&& self.vocab.deep_view().len() >= 2
        &&& self.vocab.deep_view()[0] == self.args.padding@
        &&& self.vocab.deep_view().last() == self.args.unknown@
        &&& spec_distinct(self.vocab.deep_view())
        &&& self.tags.deep_view().len() >= 1
        &&& self.tags.deep_view()[0] == self.args.padding_tag@
        &&& spec_distinct(self.tags.deep_view())
    }

    open spec fn inited(&self, old_self: Self, train: Seq<TaggingSample>) -> bool {
        &&& self.args == old_self.args
        &&& self.stopwords == old_self.stopwords
        &&& self.vocab.deep_view() == old_self.spec_vocab(train)
        &&& self.tags.deep_view() == old_self.spec_tag_table(train)
    }

    open spec fn parses_to(
        &self,
        lines: Seq<Seq<char>>,
        r: Result<Vec<TaggingSample>, BuildError>,
    ) -> bool {
        match r {
            Ok(ss) => {
                &&& ss@.len() == spec_tag_groups(self.args.separator@, lines).len()
                &&& forall|i: int|
                    0 <= i < ss@.len() ==> (#[trigger] ss@[i]).tokens.deep_view() == spec_firsts(
                        spec_tag_groups(self.args.separator@, lines)[i],
                    ) && ss@[i].tags.deep_view() == spec_seconds(
                        spec_tag_groups(self.args.separator@, lines)[i],
                    )
            },
            Err(_) => false,
        }
    }

    open spec fn encodes_to(
        &self,
        s: TaggingSample,
        r: Result<TaggingRecord, BuildError>,
    ) -> bool {
        match r {
            Ok(rec) => {
                &&& s.tokens@.len() <= self.args.sequence_length
                &&& rec.token_ids@ == spec_pad_truncate(
                    spec_token_ids(self.vocab.deep_view(), s.tokens.deep_view()),
                    self.args.sequence_length as nat,
                )
                &&& rec.tag_ids@ == spec_pad_truncate(
                    spec_tag_ids(self.tags.deep_view(), s.tags.deep_view()),
                    self.args.sequence_length as nat,
                )
            },
            Err(e) => e == BuildError::SequenceTooLong && s.tokens@.len()
                > self.args.sequence_length,
        }
    }

    open spec fn record_wf(&self, rec: TaggingRecord) -> bool {
        rec.token_ids@.len() == self.args.sequence_length && rec.tag_ids@.len()
            == self.args.sequence_length
    }

    open spec fn serializes_to(
        &self,
        records: Seq<TaggingRecord>,
        r: Result<SplitData, BuildError>,
    ) -> bool {
        match r {
            Ok(sd) => {
                &&& spec_tagging_ids_fit(records)
                &&& spec_tagging_tags_fit(records)
                &&& spec_tagging_fields_ok(sd.fields@, self.args.sequence_length as int)
                &&& sd.batches@.len() == spec_num_chunks(records.len() as int)
                &&& forall|b: int|
                    0 <= b < sd.batches@.len() ==> spec_tagging_batch_ok(
                        records,
                        #[trigger] sd.batches@[b],
                        b,
                        self.args.sequence_length as int,
                    )
            },
            Err(e) => {
                ||| (e == BuildError::IdTooWide && !spec_tagging_ids_fit(records))
                ||| (e == BuildError::LabelTooWide && !spec_tagging_tags_fit(records))
            },
        }
    }

    open spec fn vocab_lines_of(&self, lines: Seq<Seq<char>>) -> bool {
        &&& lines.len() == self.vocab.deep_view().len()
        &&& forall|i: int|
            0 <= i < lines.len() ==> #[trigger] lines[i] == spec_table_line(
                i,
                self.vocab.deep_view()[i],
            )
    }

    open spec fn out_path(&self) -> Seq<char> {
        match self.args.output_path {
            Some(p) => p@,
            None => self.args.path@,
        }
    }

    fn init(&mut self, train_samples: &Vec<TaggingSample>) {
        let ghost old_self = *self;
        let mut skip: Vec<String> = Vec::new();
        skip.push(self.args.padding.clone());
        skip.push(self.args.unknown.clone());
        proof {
            assert(skip.deep_view() =~= self.skip_list());
        }
        let mut tag_skip: Vec<String> = Vec::new();
        tag_skip.push(self.args.padding_tag.clone());
        let empty_stop: Vec<String> = Vec::new();
        proof {
            assert(tag_skip.deep_view() =~= seq![self.args.padding_tag@]);
            assert(empty_stop.deep_view() =~= Seq::<Seq<char>>::empty());
        }
        let mut vocab: Vec<String> = Vec::new();
        vocab.push(self.args.padding.clone());
        let mut tag_table: Vec<String> = Vec::new();
        tag_table.push(self.args.padding_tag.clone());
        let ghost entries0 = vocab.deep_view();
        let ghost tags0 = tag_table.deep_view();
        proof {
            assert(entries0 =~= seq![self.args.padding@]);
            assert(tags0 =~= seq![self.args.padding_tag@]);
        }
        let ghost lists = spec_tagging_token_lists(train_samples@);
        let ghost tag_lists = spec_tagging_tag_lists(train_samples@);
        let ghost skipdv = skip.deep_view();
        let ghost tag_skipdv = tag_skip.deep_view();
        let ghost stopdv = self.stopwords.deep_view();
        let n = train_samples.len();
        let mut i: usize = 0;
        proof {
            assert(lists.skip(0) =~= lists);
            assert(tag_lists.skip(0) =~= tag_lists);
        }
        while i < n
            invariant
                n == train_samples@.len(),
                0 <= i <= n,
                *self == old_self,
                skipdv == skip.deep_view(),
                tag_skipdv == tag_skip.deep_view(),
                tag_skipdv == seq![self.args.padding_tag@],
                Seq::<Seq<char>>::empty() == empty_stop.deep_view(),
                stopdv == self.stopwords.deep_view(),
                lists == spec_tagging_token_lists(train_samples@),
                tag_lists == spec_tagging_tag_lists(train_samples@),
                lists.len() == n,
                tag_lists.len() == n,
                spec_add_token_lists(vocab.deep_view(), skipdv, stopdv, lists.skip(i as int))
                    == spec_add_token_lists(entries0, skipdv, stopdv, lists),
                spec_add_token_lists(
                    tag_table.deep_view(),
                    tag_skipdv,
                    Seq::empty(),
                    tag_lists.skip(i as int),
                ) == spec_add_token_lists(tags0, tag_skipdv, Seq::empty(), tag_lists),
            decreases n - i,
        {
            let ghost rest = lists.skip(i as int);
            assert(rest.len() > 0 && rest[0] == lists[i as int]);
            assert(rest.drop_first() =~= lists.skip(i as int + 1));
            assert(lists[i as int] == train_samples@[i as int].tokens.deep_view());
            add_tokens(&mut vocab, &skip, &self.stopwords, &train_samples[i].tokens);
            let ghost trest = tag_lists.skip(i as int);
            assert(trest.len() > 0 && trest[0] == tag_lists[i as int]);
            assert(trest.drop_first() =~= tag_lists.skip(i as int + 1));
            assert(tag_lists[i as int] == train_samples@[i as int].tags.deep_view());
            add_tokens(&mut tag_table, &tag_skip, &empty_stop, &train_samples[i].tags);
            i = i + 1;
        }
        proof {
            assert(lists.skip(n as int) =~= Seq::<Seq<Seq<char>>>::empty());
            assert(tag_lists.skip(n as int) =~= Seq::<Seq<Seq<char>>>::empty());
        }
        let ghost collected = vocab.deep_view();
        let ghost tcollected = tag_table.deep_view();
        let ghost pad = self.args.padding@;
        let ghost unk = self.args.unknown@;
        let ghost ptag = self.args.padding_tag@;
        proof {
            assert(collected == spec_add_token_lists(entries0, skipdv, stopdv, lists));
            lemma_add_token_lists_props(entries0, skipdv, stopdv, lists);
            assert(spec_distinct(entries0));
            assert(collected.take(1) == entries0);
            assert(collected[0] == collected.take(1)[0]);
            assert(collected[0] == pad);
            assert(skipdv[1] == unk);
            assert(skipdv.contains(unk));
            assert forall|k: int| 0 <= k < collected.len() implies collected[k] != unk by {
                if k == 0 {
                    assert(collected[k] == pad);
                } else {
                    assert(!skipdv.contains(collected[k]));
                }
            }
            assert(tcollected == spec_add_token_lists(tags0, tag_skipdv, Seq::empty(), tag_lists));
            lemma_add_token_lists_props(tags0, tag_skipdv, Seq::empty(), tag_lists);
            assert(spec_distinct(tags0));
            assert(tcollected.take(1) == tags0);
            assert(tcollected[0] == tcollected.take(1)[0]);
            assert(tcollected[0] == ptag);
        }
        vocab.push(self.args.unknown.clone());
        proof {
            assert(vocab.deep_view() =~= collected.push(unk));
            let dv = vocab.deep_view();
            assert(dv[0] == pad);
            assert(dv.last() == unk);
            assert forall|a: int, b: int| 0 <= a < b < dv.len() implies dv[a] != dv[b] by {
                if b == dv.len() - 1 {
                    assert(dv[a] == collected[a]);
                    assert(collected[a] != unk);
                } else {
                    assert(dv[a] == collected[a] && dv[b] == collected[b]);
                }
            }
        }
        self.vocab = vocab;
        self.tags = tag_table;
    }

    fn read_dataset(&self, lines: &Vec<String>) -> (r: Result<Vec<TaggingSample>, BuildError>) {
        let ghost sep = self.args.separator@;
        let ghost lv = lines.deep_view();
        let mut out: Vec<TaggingSample> = Vec::new();
        let mut cur_tokens: Vec<String> = Vec::new();
        let mut cur_tags: Vec<String> = Vec::new();
        let ghost groups = spec_tag_groups(sep, lv);
        let n = lines.len();
        let mut i: usize = 0;
        proof {
            assert(lv.skip(0) =~= lv);
            assert(Seq::new(0, |j: int| (cur_tokens.deep_view()[j], cur_tags.deep_view()[j]))
                =~= Seq::<(Seq<char>, Seq<char>)>::empty());
        }
        let ghost mut done: Seq<Seq<(Seq<char>, Seq<char>)>> = Seq::empty();
        proof {
            assert(Seq::<Seq<(Seq<char>, Seq<char>)>>::empty() + spec_group_acc(sep, lv, Seq::empty())
                =~= spec_group_acc(sep, lv, Seq::empty()));
        }
        while i < n
            invariant
                n == lines@.len(),
                0 <= i <= n,
                sep == self.args.separator@,
                lv == lines.deep_view(),
                lv.len() == n,
                groups == spec_tag_groups(sep, lv),
                cur_tokens.deep_view().len() == cur_tags.deep_view().len(),
                groups == done + spec_group_acc(
                    sep,
                    lv.skip(i as int),
                    Seq::new(
                        cur_tokens.deep_view().len(),
                        |j: int| (cur_tokens.deep_view()[j], cur_tags.deep_view()[j]),
                    ),
                ),
                out@.len() == done.len(),
                forall|g: int|
                    0 <= g < done.len() ==> (#[trigger] out@[g]).tokens.deep_view() == spec_firsts(
                        done[g],
                    ) && out@[g].tags.deep_view() == spec_seconds(done[g]),
            decreases n - i,
        {
            let ghost rest = lv.skip(i as int);
            let ghost cur = Seq::new(
                cur_tokens.deep_view().len(),
                |j: int| (cur_tokens.deep_view()[j], cur_tags.deep_view()[j]),
            );
            assert(rest.len() > 0 && rest[0] == lv[i as int]);
            assert(rest.drop_first() =~= lv.skip(i as int + 1));
            assert(lv[i as int] == lines@[i as int]@);
            if lines[i].as_str().is_empty() {
                assert(lv[i as int].len() == 0);
                let sample = TaggingSample::new(cur_tokens, cur_tags);
                proof {
                    assert(sample.tokens.deep_view() =~= spec_firsts(cur));
                    assert(sample.tags.deep_view() =~= spec_seconds(cur));
                    assert(spec_group_acc(sep, rest, cur) == seq![cur] + spec_group_acc(
                        sep,
                        lv.skip(i as int + 1),
                        Seq::empty(),
                    ));
                }
                out.push(sample);
                cur_tokens = Vec::new();
                cur_tags = Vec::new();
                proof {
                    done = done.push(cur);
                    assert(done.drop_last() + (seq![cur] + spec_group_acc(
                        sep,
                        lv.skip(i as int + 1),
                        Seq::empty(),
                    )) =~= done + spec_group_acc(sep, lv.skip(i as int + 1), Seq::empty()));
                    assert(Seq::new(
                        cur_tokens.deep_view().len(),
                        |j: int| (cur_tokens.deep_view()[j], cur_tags.deep_view()[j]),
                    ) =~= Seq::<(Seq<char>, Seq<char>)>::empty());
                }
            } else {
                assert(lv[i as int].len() > 0);
                match split_once_str(lines[i].as_str(), self.args.separator.as_str()) {
                    Some(p) => {
                        let ghost pr = (p.0@, p.1@);
                        cur_tokens.push(p.0);
                        cur_tags.push(p.1);
                        proof {
                            assert(spec_split_once(lv[i as int], sep) == Some(pr));
                            assert(spec_group_acc(sep, rest, cur) == spec_group_acc(
                                sep,
                                lv.skip(i as int + 1),
                                cur.push(pr),
                            ));
                            assert(Seq::new(
                                cur_tokens.deep_view().len(),
                                |j: int| (cur_tokens.deep_view()[j], cur_tags.deep_view()[j]),
                            ) =~= cur.push(pr));
                        }
                    },
                    None => {
                        proof {
                            assert(spec_split_once(lv[i as int], sep) is None);
                            assert(spec_group_acc(sep, rest, cur) == spec_group_acc(
                                sep,
                                lv.skip(i as int + 1),
                                cur,
                            ));
                        }
                    },
                }
            }
            i = i + 1;
        }
        let ghost cur = Seq::new(
            cur_tokens.deep_view().len(),
            |j: int| (cur_tokens.deep_view()[j], cur_tags.deep_view()[j]),
        );
        proof {
            assert(lv.skip(n as int) =~= Seq::<Seq<char>>::empty());
            assert(spec_group_acc(sep, Seq::<Seq<char>>::empty(), cur) == seq![cur]);
        }
        let sample = TaggingSample::new(cur_tokens, cur_tags);
        proof {
            assert(sample.tokens.deep_view() =~= spec_firsts(cur));
            assert(sample.tags.deep_view() =~= spec_seconds(cur));
        }
        out.push(sample);
        proof {
            done = done.push(cur);
            assert(done.drop_last() + seq![cur] =~= done);
        }
        Ok(out)
    }

    fn build_dataset(&self, samples: Vec<TaggingSample>) -> (r: Result<
        Vec<TaggingRecord>,
        BuildError,
    >) {
        let ghost sv = samples@;
        let r = par_encode(self, samples);
        proof {
            match &r {
                Ok(rs) => {
                    assert forall|i: int| 0 <= i < sv.len() implies self.record_wf(rs@[i]) by {
                        assert(self.encodes_to(sv[i], Ok(rs@[i])));
                        lemma_spec_pad_truncate_len(
                            spec_token_ids(self.vocab.deep_view(), sv[i].tokens.deep_view()),
                            self.args.sequence_length as nat,
                        );
                        lemma_spec_pad_truncate_len(
                            spec_tag_ids(self.tags.deep_view(), sv[i].tags.deep_view()),
                            self.args.sequence_length as nat,
                        );
                    }
                },
                Err(_) => {},
            }
        }
        r
    }

    fn save_vocab(&self) -> (r: Vec<String>) {
        table_lines(&self.vocab)
    }

    fn save_dataset(&self, records: &Vec<TaggingRecord>) -> (r: Result<SplitData, BuildError>) {
        let ghost rv = records@;
        let max_length = self.args.sequence_length;
        let n = records.len();
        // Validate the fixed storage widths before materializing anything.
        let mut i: usize = 0;
        while i < n
            invariant
                rv == records@,
                n == rv.len(),
                0 <= i <= n,
                forall|a: int| 0 <= a < rv.len() ==> self.record_wf(#[trigger] rv[a]),
                max_length == self.args.sequence_length,
                forall|a: int, k: int|
                    0 <= a < i && 0 <= k < rv[a].token_ids@.len() ==> #[trigger] rv[a].token_ids@[k]
                        <= u32::MAX,
                forall|a: int, k: int|
                    0 <= a < i && 0 <= k < rv[a].tag_ids@.len() ==> #[trigger] rv[a].tag_ids@[k]
                        <= 255,
            decreases n - i,
        {
            let w = records[i].token_ids.len();
            let mut k: usize = 0;
            while k < w
                invariant
                    rv == records@,
                    0 <= i < rv.len(),
                    w == rv[i as int].token_ids@.len(),
                    0 <= k <= w,
                    forall|kk: int|
                        0 <= kk < k ==> #[trigger] rv[i as int].token_ids@[kk] <= u32::MAX,
                decreases w - k,
            {
                if records[i].token_ids[k] > u32::MAX as usize {
                    assert(rv[i as int].token_ids@[k as int] > u32::MAX);
                    assert(!spec_tagging_ids_fit(rv));
                    return Err(BuildError::IdTooWide);
                }
                k = k + 1;
            }
            let w2 = records[i].tag_ids.len();
            let mut k2: usize = 0;
            while k2 < w2
                invariant
                    rv == records@,
                    0 <= i < rv.len(),
                    w2 == rv[i as int].tag_ids@.len(),
                    0 <= k2 <= w2,
                    forall|kk: int| 0 <= kk < k2 ==> #[trigger] rv[i as int].tag_ids@[kk] <= 255,
                decreases w2 - k2,
            {
                if records[i].tag_ids[k2] > 255 {
                    assert(rv[i as int].tag_ids@[k2 as int] > 255);
                    assert(!spec_tagging_tags_fit(rv));
                    return Err(BuildError::LabelTooWide);
                }
                k2 = k2 + 1;
            }
            i = i + 1;
        }
        assert(spec_tagging_ids_fit(rv));
        assert(spec_tagging_tags_fit(rv));
        // Schema: word_k and tag_k interleaved per position.
        let mut fields: Vec<FieldDef> = Vec::new();
        let mut k: usize = 0;
        while k < max_length
            invariant
                0 <= k <= max_length,
                fields@.len() == 2 * k,
                forall|kk: int|
                    0 <= kk < k ==> (#[trigger] fields@[2 * kk]).name@ == spec_field_name(
                        "word_"@,
                        kk,
                    ) && fields@[2 * kk].wide,
                forall|kk: int|
                    0 <= kk < k ==> (#[trigger] fields@[2 * kk + 1]).name@ == spec_field_name(
                        "tag_"@,
                        kk,
                    ) && !fields@[2 * kk + 1].wide,
            decreases max_length - k,
        {
            let name = field_name("word_", k);
            fields.push(FieldDef { name, wide: true });
            let tname = field_name("tag_", k);
            fields.push(FieldDef { name: tname, wide: false });
            k = k + 1;
        }
        assert(spec_tagging_fields_ok(fields@, max_length as int));
        // Batches of CHUNK_SIZE records, the last one partial.
        let mut batches: Vec<BatchData> = Vec::new();
        let mut lo: usize = 0;
        let ghost mut b: int = 0;
        while lo < n
            invariant
                rv == records@,
                n == rv.len(),
                forall|a: int| 0 <= a < rv.len() ==> self.record_wf(#[trigger] rv[a]),
                max_length == self.args.sequence_length,
                0 <= b,
                lo as int == if b * (CHUNK_SIZE as int) <= n as int {
                    b * (CHUNK_SIZE as int)
                } else {
                    n as int
                },
                b == 0 || (b - 1) * (CHUNK_SIZE as int) < n as int,
                batches@.len() == b,
                forall|bb: int|
                    0 <= bb < b ==> spec_tagging_batch_ok(
                        rv,
                        #[trigger] batches@[bb],
                        bb,
                        max_length as int,
                    ),
            decreases n - lo,
        {
            assert(lo as int == b * (CHUNK_SIZE as int));
            let hi = if n - lo > CHUNK_SIZE {
                lo + CHUNK_SIZE
            } else {
                n
            };
            assert(hi as int == spec_chunk_hi(b, n as int));
            let mut cols: Vec<ColumnData> = Vec::new();
            let mut k: usize = 0;
            while k < max_length
                invariant
                    rv == records@,
                    n == rv.len(),
                    forall|a: int| 0 <= a < rv.len() ==> self.record_wf(#[trigger] rv[a]),
                    max_length == self.args.sequence_length,
                    lo as int == spec_chunk_lo(b),
                    hi as int == spec_chunk_hi(b, n as int),
                    lo <= hi <= n,
                    0 <= k <= max_length,
                    cols@.len() == 2 * k,
                    forall|kk: int|
                        0 <= kk < k ==> spec_is_u32_col(
                            #[trigger] cols@[2 * kk],
                            spec_tok_col(rv, lo as int, hi as int, kk),
                        ),
                    forall|kk: int|
                        0 <= kk < k ==> spec_is_u8_col(
                            #[trigger] cols@[2 * kk + 1],
                            spec_tag_col(rv, lo as int, hi as int, kk),
                        ),
                decreases max_length - k,
            {
                let mut col: Vec<u32> = Vec::new();
                let mut ri: usize = lo;
                while ri < hi
                    invariant
                        rv == records@,
                        n == rv.len(),
                        forall|a: int| 0 <= a < rv.len() ==> self.record_wf(#[trigger] rv[a]),
                        max_length == self.args.sequence_length,
                        0 <= k < max_length,
                        lo <= ri <= hi <= n,
                        col@ == spec_tok_col(rv, lo as int, hi as int, k as int).take(ri - lo),
                    decreases hi - ri,
                {
                    assert(rv[ri as int].token_ids@.len() == max_length);
                    col.push(records[ri].token_ids[k] as u32);
                    assert(col@ =~= spec_tok_col(rv, lo as int, hi as int, k as int).take(
                        ri - lo + 1,
                    ));
                    ri = ri + 1;
                }
                assert(col@ =~= spec_tok_col(rv, lo as int, hi as int, k as int));
                cols.push(ColumnData::U32(col));
                let mut tcol: Vec<u8> = Vec::new();
                let mut ri2: usize = lo;
                while ri2 < hi
                    invariant
                        rv == records@,
                        n == rv.len(),
                        forall|a: int| 0 <= a < rv.len() ==> self.record_wf(#[trigger] rv[a]),
                        max_length == self.args.sequence_length,
                        0 <= k < max_length,
                        lo <= ri2 <= hi <= n,
                        tcol@ == spec_tag_col(rv, lo as int, hi as int, k as int).take(ri2 - lo),
                    decreases hi - ri2,
                {
                    assert(rv[ri2 as int].tag_ids@.len() == max_length);
                    tcol.push(records[ri2].tag_ids[k] as u8);
                    assert(tcol@ =~= spec_tag_col(rv, lo as int, hi as int, k as int).take(
                        ri2 - lo + 1,
                    ));
                    ri2 = ri2 + 1;
                }
                assert(tcol@ =~= spec_tag_col(rv, lo as int, hi as int, k as int));
                cols.push(ColumnData::U8(tcol));
                k = k + 1;
            }
            let batch = BatchData { columns: cols };
            proof {
                assert(batch.columns@.len() == 2 * max_length);
                assert(spec_tagging_batch_ok(rv, batch, b, max_length as int));
            }
            batches.push(batch);
            proof {
                b = b + 1;
            }
            lo = hi;
        }
        proof {
            if b == 0 {
                assert(n == 0);
                assert(spec_num_chunks(0) == 0);
            } else {
                assert(b == spec_num_chunks(n as int)) by (nonlinear_arith)
                    requires
                        (b - 1) * (CHUNK_SIZE as int) < n as int,
                        b * (CHUNK_SIZE as int) >= n as int,
                        CHUNK_SIZE == 100,
                        0 < b,
                ;
            }
        }
        Ok(SplitData { fields, batches })
    }

    fn get_output_path(&self) -> (r: String) {
        match &self.args.output_path {
            Some(p) => p.clone(),
            None => self.args.path.clone(),
        }
    }
}

// ---------------------------------------------------------------------------
// Laws
// ---------------------------------------------------------------------------
/// In any built vocabulary the padding token is bound to id 0 and the
/// unknown token to the last id; in the tag table the padding tag is bound
/// to tag id 0, and a tag absent from the table encodes to that id.
pub proof fn lemma_tagging_special_ids(b: TaggingBuilder, tag: Seq<char>)
    requires
        b.wf(),
    ensures
        spec_find(b.vocab.deep_view(), b.args.padding@) == Some(0int),
        spec_find(b.vocab.deep_view(), b.args.unknown@) == Some(b.vocab.deep_view().len() - 1),
        spec_find(b.tags.deep_view(), b.args.padding_tag@) == Some(0int),
        spec_find(b.tags.deep_view(), tag) is None ==> spec_tag_id(b.tags.deep_view(), tag) == 0,
{
    lemma_special_ids(b.vocab.deep_view(), b.args.padding@, b.args.unknown@);
    lemma_find_from_props(b.tags.deep_view(), b.args.padding_tag@, 0);
}

/// A token present in the vocabulary always encodes to its vocabulary id,
/// and a token absent from it always encodes to the unknown id — in every
/// split, because the encoded id depends only on the frozen vocabulary and
/// the token.
pub proof fn lemma_tagging_lookup_round_trip(b: TaggingBuilder, tok: Seq<char>)
    requires
        b.wf(),
    ensures
        b.vocab.deep_view().contains(tok) ==> Some(
            crate::lexicon::spec_token_id(b.vocab.deep_view(), tok) as int,
        ) == spec_find(b.vocab.deep_view(), tok),
        !b.vocab.deep_view().contains(tok) ==> crate::lexicon::spec_token_id(
            b.vocab.deep_view(),
            tok,
        ) as int == b.vocab.deep_view().len() - 1,
{
    broadcast use vstd::std_specs::vec::axiom_spec_len;

    crate::lexicon::lemma_find_contains(b.vocab.deep_view(), tok);
    lemma_find_from_props(b.vocab.deep_view(), tok, 0);
    assert(vstd::std_specs::vec::spec_vec_len(&b.vocab) == b.vocab@.len());
}

/// Re-running a build with identical configuration and inputs yields
/// records with identical content: parsing and encoding are functional in
/// the builder and its inputs, and over-long samples fail both times.
pub proof fn lemma_tagging_deterministic(
    b: TaggingBuilder,
    lines: Seq<Seq<char>>,
    s: TaggingSample,
    r1: Result<Vec<TaggingSample>, BuildError>,
    r2: Result<Vec<TaggingSample>, BuildError>,
    e1: Result<TaggingRecord, BuildError>,
    e2: Result<TaggingRecord, BuildError>,
)
    requires
        b.parses_to(lines, r1),
        b.parses_to(lines, r2),
        b.encodes_to(s, e1),
        b.encodes_to(s, e2),
    ensures
        r1 is Ok && r2 is Ok,
        r1->Ok_0@.len() == r2->Ok_0@.len(),
        forall|i: int|
            0 <= i < r1->Ok_0@.len() ==> (#[trigger] r1->Ok_0@[i]).tokens.deep_view()
                == r2->Ok_0@[i].tokens.deep_view() && r1->Ok_0@[i].tags.deep_view()
                == r2->Ok_0@[i].tags.deep_view(),
        e1 is Ok <==> e2 is Ok,
        e1 is Ok ==> e1->Ok_0.token_ids@ == e2->Ok_0.token_ids@ && e1->Ok_0.tag_ids@
            == e2->Ok_0.tag_ids@,
        e1 is Err ==> e1 == e2,
{
}

} // verus!
