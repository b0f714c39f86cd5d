//! The shared dataset-build pipeline: one polymorphic contract with the
//! capabilities {parse samples, build vocabulary/labels from the training
//! split, encode a split, serialize records, emit the vocabulary}, and the
//! three-split orchestration over it. Task variants implement `IDataset`
//! and say in its spec functions exactly what each capability does.
use vstd::prelude::*;
use crate::columns::SplitData;
use crate::errors::BuildError;

verus! {

/// One dataset task variant: `S` is its parsed sample shape, `R` its
/// encoded fixed-width record shape. The spec functions are the variant's
/// own exact semantics; the executable methods promise to follow them.
pub trait IDataset<S, R>: Sized {
    /// What `init` demands of a fresh builder (for instance that the
    /// padding and unknown token strings differ).
    spec fn init_pre(&self) -> bool;

    /// The builder has been initialized: vocabulary and label tables built.
    spec fn wf(&self) -> bool;

    /// How the initialized builder relates to the fresh builder and the
    /// training samples it was built from.
    spec fn inited(&self, old_self: Self, train: Seq<S>) -> bool;

    /// What parsing a split's lines yields.
    spec fn parses_to(&self, lines: Seq<Seq<char>>, r: Result<Vec<S>, BuildError>) -> bool;

    /// What encoding one sample yields.
    spec fn encodes_to(&self, s: S, r: Result<R, BuildError>) -> bool;

    /// A record of the shape the serializer expects (fixed widths).
    spec fn record_wf(&self, rec: R) -> bool;

    /// What serializing a record sequence yields.
    spec fn serializes_to(&self, records: Seq<R>, r: Result<SplitData, BuildError>) -> bool;

    /// The persisted form of the vocabulary, one line per entry.
    spec fn vocab_lines_of(&self, lines: Seq<Seq<char>>) -> bool;

    /// Where output files belong.
    spec fn out_path(&self) -> Seq<char>;

    /// Build the vocabulary and label tables from the training samples.
    fn init(&mut self, train_samples: &Vec<S>)
        requires
            old(self).init_pre(),
        ensures
            final(self).wf(),
            final(self).inited(*old(self), train_samples@),
    ;

    /// Parse a split's lines into samples. Lines that do not split on the
    /// configured separator are dropped; a fatally malformed field fails.
    fn read_dataset(&self, lines: &Vec<String>) -> (r: Result<Vec<S>, BuildError>)
        ensures
            self.parses_to(lines.deep_view(), r),
    ;

    /// Encode every sample of a split, preserving input order; the first
    /// failing sample's error aborts the split.
    fn build_dataset(&self, samples: Vec<S>) -> (r: Result<Vec<R>, BuildError>)
        requires
            self.wf(),
        ensures
            match r {
                Ok(rs) => rs@.len() == samples@.len() && forall|i: int|
                    0 <= i < samples@.len() ==> self.encodes_to(
                        samples@[i],
                        Ok(rs@[i]),
                    ) && self.record_wf(rs@[i]),
                Err(e) => exists|i: int|
                    0 <= i < samples@.len() && self.encodes_to(samples@[i], Err(e)),
            },
    ;

    /// The vocabulary's persisted lines, in id order.
    fn save_vocab(&self) -> (r: Vec<String>)
        requires
            self.wf(),
        ensures
            self.vocab_lines_of(r.deep_view()),
    ;

    /// Materialize a split's records into schema'd, chunked columns.
    fn save_dataset(&self, records: &Vec<R>) -> (r: Result<SplitData, BuildError>)
        requires
            self.wf(),
            forall|i: int| 0 <= i < records@.len() ==> self.record_wf(#[trigger] records@[i]),
        ensures
            self.serializes_to(records@, r),
    ;

    /// The directory the output files go to: the configured output path,
    /// or the input path when none is configured.
    fn get_output_path(&self) -> (r: String)
        ensures
            r@ == self.out_path(),
    ;
}

/// Everything a finished build hands back: the vocabulary lines and the
/// columnar data of the three splits, ready for the output container.
pub struct BuildOutput {
    pub vocab_lines: Vec<String>,
    pub train: SplitData,
    pub dev: SplitData,
    pub test: SplitData,
}

/// A successful build is this exact chain: the training lines parse, the
/// builder is initialized from those samples, each split's samples parse
/// under the initialized builder and encode in order, and each split's
/// records serialize into the returned columnar data.
pub open spec fn spec_build_chain<S, R, D: IDataset<S, R>>(
    d0: D,
    d1: D,
    train_lines: Seq<Seq<char>>,
    dev_lines: Seq<Seq<char>>,
    test_lines: Seq<Seq<char>>,
    out: BuildOutput,
    train_s: Vec<S>,
    dev_s: Vec<S>,
    test_s: Vec<S>,
    train_r: Vec<R>,
    dev_r: Vec<R>,
    test_r: Vec<R>,
) -> bool {
    &&& d0.parses_to(train_lines, Ok(train_s))
    &&& d1.inited(d0, train_s@)
    &&& d1.wf()
    &&& train_r@.len() == train_s@.len()
    &&& forall|i: int|
        0 <= i < train_s@.len() ==> d1.encodes_to(#[trigger] train_s@[i], Ok(train_r@[i]))
    &&& d1.parses_to(dev_lines, Ok(dev_s))
    &&& dev_r@.len() == dev_s@.len()
    &&& forall|i: int| 0 <= i < dev_s@.len() ==> d1.encodes_to(#[trigger] dev_s@[i], Ok(dev_r@[i]))
    &&& d1.parses_to(test_lines, Ok(test_s))
    &&& test_r@.len() == test_s@.len()
    &&& forall|i: int|
        0 <= i < test_s@.len() ==> d1.encodes_to(#[trigger] test_s@[i], Ok(test_r@[i]))
    &&& d1.vocab_lines_of(out.vocab_lines.deep_view())
    &&& d1.serializes_to(train_r@, Ok(out.train))
    &&& d1.serializes_to(dev_r@, Ok(out.dev))
    &&& d1.serializes_to(test_r@, Ok(out.test))
}

/// A failed build blames a stage: parsing, the encoding of one sample of
/// one split, or serialization, under the builder state that ran it.
pub open spec fn spec_build_stage_errs<S, R, D: IDataset<S, R>>(
    d0: D,
    d1: D,
    train_lines: Seq<Seq<char>>,
    dev_lines: Seq<Seq<char>>,
    test_lines: Seq<Seq<char>>,
    e: BuildError,
) -> bool {
    ||| d0.parses_to(train_lines, Err(e))
    ||| exists|train_s: Vec<S>|
        {
            &&& d0.parses_to(train_lines, Ok(train_s))
            &&& d1.inited(d0, train_s@)
            &&& {
                ||| exists|i: int|
                    0 <= i < train_s@.len() && d1.encodes_to(#[trigger] train_s@[i], Err(e))
                ||| d1.parses_to(dev_lines, Err(e))
                ||| exists|dev_s: Vec<S>|
                    d1.parses_to(dev_lines, Ok(dev_s)) && exists|i: int|
                        0 <= i < dev_s@.len() && d1.encodes_to(#[trigger] dev_s@[i], Err(e))
                ||| d1.parses_to(test_lines, Err(e))
                ||| exists|test_s: Vec<S>|
                    d1.parses_to(test_lines, Ok(test_s)) && exists|i: int|
                        0 <= i < test_s@.len() && d1.encodes_to(#[trigger] test_s@[i], Err(e))
                ||| exists|recs: Vec<R>| d1.serializes_to(recs@, Err(e))
            }
        }
}

/// What `build_all` promises of its result: a success is the exact build
/// chain for some intermediate samples and records; a failure blames a
/// stage.
pub open spec fn spec_build_post<S, R, D: IDataset<S, R>>(
    d0: D,
    d1: D,
    train_lines: Seq<Seq<char>>,
    dev_lines: Seq<Seq<char>>,
    test_lines: Seq<Seq<char>>,
    r: Result<BuildOutput, BuildError>,
) -> bool {
    match r {
        Ok(out) => exists|
            train_s: Vec<S>,
            dev_s: Vec<S>,
            test_s: Vec<S>,
            train_r: Vec<R>,
            dev_r: Vec<R>,
            test_r: Vec<R>,
        |
            spec_build_chain(
                d0,
                d1,
                train_lines,
                dev_lines,
                test_lines,
                out,
                train_s,
                dev_s,
                test_s,
                train_r,
                dev_r,
                test_r,
            ),
        Err(e) => spec_build_stage_errs::<S, R, D>(d0, d1, train_lines, dev_lines, test_lines, e),
    }
}

/// Run the whole pipeline over the three fixed splits: parse the training
/// lines, build vocabulary and label tables from them, then parse and
/// encode each split under the frozen tables, and serialize each split's
/// records. The vocabulary is built from the training split only and
/// reused unmodified for dev and test.
pub fn build_all<S, R, D: IDataset<S, R>>(
    d: &mut D,
    train_lines: &Vec<String>,
    dev_lines: &Vec<String>,
    test_lines: &Vec<String>,
) -> (r: Result<BuildOutput, BuildError>)
    requires
        old(d).init_pre(),
    ensures
        spec_build_post(
            *old(d),
            *final(d),
            train_lines.deep_view(),
            dev_lines.deep_view(),
            test_lines.deep_view(),
            r,
        ),
{
    let train_samples = match d.read_dataset(train_lines) {
        Ok(s) => s,
        Err(e) => {
            return Err(e);
        },
    };
    d.init(&train_samples);
    let ghost train_s = train_samples;
    let train_records = match d.build_dataset(train_samples) {
        Ok(rs) => rs,
        Err(e) => {
            return Err(e);
        },
    };
    let dev_samples = match d.read_dataset(dev_lines) {
        Ok(s) => s,
        Err(e) => {
            return Err(e);
        },
    };
    let ghost dev_s = dev_samples;
    let dev_records = match d.build_dataset(dev_samples) {
        Ok(rs) => rs,
        Err(e) => {
            return Err(e);
        },
    };
    let test_samples = match d.read_dataset(test_lines) {
        Ok(s) => s,
        Err(e) => {
            return Err(e);
        },
    };
    let ghost test_s = test_samples;
    let test_records = match d.build_dataset(test_samples) {
        Ok(rs) => rs,
        Err(e) => {
            return Err(e);
        },
    };
    let vocab_lines = d.save_vocab();
    let train_data = match d.save_dataset(&train_records) {
        Ok(sd) => sd,
        Err(e) => {
            return Err(e);
        },
    };
    let dev_data = match d.save_dataset(&dev_records) {
        Ok(sd) => sd,
        Err(e) => {
            return Err(e);
        },
    };
    let test_data = match d.save_dataset(&test_records) {
        Ok(sd) => sd,
        Err(e) => {
            return Err(e);
        },
    };
    let out = BuildOutput { vocab_lines, train: train_data, dev: dev_data, test: test_data };
    let res: Result<BuildOutput, BuildError> = Ok(out);
    proof {
        let tr = train_records;
        let dr = dev_records;
        let te = test_records;
        assert(spec_build_post(
            *old(d),
            *final(d),
            train_lines.deep_view(),
            dev_lines.deep_view(),
            test_lines.deep_view(),
            res,
        )) by {
            assert(spec_build_chain(
                *old(d),
                *final(d),
                train_lines.deep_view(),
                dev_lines.deep_view(),
                test_lines.deep_view(),
                res->Ok_0,
                train_s,
                dev_s,
                test_s,
                tr,
                dr,
                te,
            ));
        }
    }
    res
}

} // verus!
