//! Indexed string tables: lookup by first occurrence, and accumulation of
//! distinct tokens in first-appearance order. The vocabulary, the class
//! list and the tag map are all such tables; an entry's id is its index.
use vstd::prelude::*;
use vstd::string::StringExecFns;

verus! {

/// First index at or after `i` whose entry equals `tok`.
pub open spec fn spec_find_from(entries: Seq<Seq<char>>, tok: Seq<char>, i: int) -> Option<int>
    decreases entries.len() - i,
{
    if i < 0 || i >= entries.len() {
        None
    } else if entries[i] == tok {
        Some(i)
    } else {
        spec_find_from(entries, tok, i + 1)
    }
}

/// First index whose entry equals `tok`, if any.
pub open spec fn spec_find(entries: Seq<Seq<char>>, tok: Seq<char>) -> Option<int> {
    spec_find_from(entries, tok, 0)
}

/// What `spec_find_from` means: the found index is the first occurrence at
/// or after `i`, and a miss means no occurrence at all.
pub proof fn lemma_find_from_props(entries: Seq<Seq<char>>, tok: Seq<char>, i: int)
    requires
        0 <= i,
    ensures
        match spec_find_from(entries, tok, i) {
            Some(j) => i <= j < entries.len() && entries[j] == tok && forall|k: int|
                i <= k < j ==> entries[k] != tok,
            None => forall|k: int| i <= k < entries.len() ==> entries[k] != tok,
        },
    decreases entries.len() - i,
{
    if i < entries.len() && entries[i] != tok {
        lemma_find_from_props(entries, tok, i + 1);
    }
}

/// A find hit is a containment witness, and a miss refutes containment.
pub proof fn lemma_find_contains(entries: Seq<Seq<char>>, tok: Seq<char>)
    ensures
        spec_find(entries, tok) is Some <==> entries.contains(tok),
{
    lemma_find_from_props(entries, tok, 0);
    match spec_find(entries, tok) {
        Some(j) => {
            assert(entries[j] == tok);
        },
        None => {
            assert(forall|k: int| 0 <= k < entries.len() ==> entries[k] != tok);
        },
    }
}

/// Index of the first entry equal to `tok`, scanning front to back.
pub fn find_entry(entries: &Vec<String>, tok: &String) -> (r: Option<usize>)
    ensures
        match r {
            Some(j) => spec_find(entries.deep_view(), tok@) == Some(j as int),
            None => spec_find(entries.deep_view(), tok@) is None,
        },
{
    let ghost dv = entries.deep_view();
    let n = entries.len();
    let mut i: usize = 0;
    while i < n
        invariant
            dv == entries.deep_view(),
            n == entries@.len(),
            0 <= i <= n,
            dv.len() == n,
            spec_find(dv, tok@) == spec_find_from(dv, tok@, i as int),
        decreases n - i,
    {
        assert(dv[i as int] == entries@[i as int]@);
        if entries[i] == *tok {
            return Some(i);
        }
        i = i + 1;
    }
    None
}

/// Whether some entry equals `tok`.
pub fn contains_entry(entries: &Vec<String>, tok: &String) -> (r: bool)
    ensures
        r == entries.deep_view().contains(tok@),
{
    proof {
        lemma_find_contains(entries.deep_view(), tok@);
    }
    match find_entry(entries, tok) {
        Some(_) => true,
        None => false,
    }
}

/// One accumulation step: the token is appended unless it equals one of the
/// reserved `skip` strings, is a stopword, or is already present.
pub open spec fn spec_add_token(
    entries: Seq<Seq<char>>,
    skip: Seq<Seq<char>>,
    stop: Seq<Seq<char>>,
    tok: Seq<char>,
) -> Seq<Seq<char>> {
    if skip.contains(tok) || stop.contains(tok) || entries.contains(tok) {
        entries
    } else {
        entries.push(tok)
    }
}

/// Accumulation of a whole token sequence, front to back.
pub open spec fn spec_add_tokens(
    entries: Seq<Seq<char>>,
    skip: Seq<Seq<char>>,
    stop: Seq<Seq<char>>,
    toks: Seq<Seq<char>>,
) -> Seq<Seq<char>>
    decreases toks.len(),
{
    if toks.len() == 0 {
        entries
    } else {
        spec_add_tokens(spec_add_token(entries, skip, stop, toks[0]), skip, stop, toks.drop_first())
    }
}

/// Append `tok` to the table unless it is reserved, a stopword, or already
/// present.
pub fn add_token(entries: &mut Vec<String>, skip: &Vec<String>, stop: &Vec<String>, tok: &String)
    ensures
        final(entries).deep_view() == spec_add_token(
            old(entries).deep_view(),
            skip.deep_view(),
            stop.deep_view(),
            tok@,
        ),
{
    let ghost dv0 = entries.deep_view();
    if !contains_entry(skip, tok) && !contains_entry(stop, tok) && !contains_entry(entries, tok) {
        entries.push(tok.clone());
        assert(entries.deep_view() =~= dv0.push(tok@));
    }
}

/// Accumulate every token of `toks`, front to back.
pub fn add_tokens(entries: &mut Vec<String>, skip: &Vec<String>, stop: &Vec<String>, toks: &Vec<String>)
    ensures
        final(entries).deep_view() == spec_add_tokens(
            old(entries).deep_view(),
            skip.deep_view(),
            stop.deep_view(),
            toks.deep_view(),
        ),
{
    let ghost dv0 = entries.deep_view();
    let ghost tv = toks.deep_view();
    let n = toks.len();
    let mut j: usize = 0;
    proof {
        assert(tv.skip(0) =~= tv);
    }
    while j < n
        invariant
            n == toks@.len(),
            0 <= j <= n,
            tv == toks.deep_view(),
            tv.len() == n,
            spec_add_tokens(entries.deep_view(), skip.deep_view(), stop.deep_view(), tv.skip(j as int))
                == spec_add_tokens(dv0, skip.deep_view(), stop.deep_view(), tv),
        decreases n - j,
    {
        let ghost rest = tv.skip(j as int);
        assert(rest.len() > 0 && rest[0] == tv[j as int]);
        assert(rest.drop_first() =~= tv.skip(j as int + 1));
        assert(tv[j as int] == toks@[j as int]@);
        add_token(entries, skip, stop, &toks[j]);
        j = j + 1;
    }
    assert(tv.skip(n as int) =~= Seq::<Seq<char>>::empty());
}

/// Copy a string table, entry for entry.
pub fn copy_strings(entries: &Vec<String>) -> (r: Vec<String>)
    ensures
        r.deep_view() == entries.deep_view(),
        r@.len() == entries@.len(),
{
    let ghost dv = entries.deep_view();
    let n = entries.len();
    let mut r: Vec<String> = Vec::new();
    let mut i: usize = 0;
    while i < n
        invariant
            dv == entries.deep_view(),
            n == entries@.len(),
            0 <= i <= n,
            r.deep_view() == dv.take(i as int),
            r@.len() == i,
        decreases n - i,
    {
        r.push(entries[i].clone());
        assert(r.deep_view() =~= dv.take(i as int + 1));
        i = i + 1;
    }
    assert(r.deep_view() =~= dv);
    r
}

/// Distinct entries: no string occurs twice.
pub open spec fn spec_distinct(entries: Seq<Seq<char>>) -> bool {
    forall|i: int, j: int| 0 <= i < j < entries.len() ==> entries[i] != entries[j]
}

/// Accumulation preserves the existing entries and their positions, keeps
/// entries distinct, and never adds a reserved or stop string.
pub proof fn lemma_add_token_props(
    entries: Seq<Seq<char>>,
    skip: Seq<Seq<char>>,
    stop: Seq<Seq<char>>,
    tok: Seq<char>,
)
    ensures
        spec_add_token(entries, skip, stop, tok).take(entries.len() as int) == entries,
        spec_add_token(entries, skip, stop, tok).len() >= entries.len(),
        spec_distinct(entries) ==> spec_distinct(spec_add_token(entries, skip, stop, tok)),
        forall|k: int|
            entries.len() <= k < spec_add_token(entries, skip, stop, tok).len() ==> !skip.contains(
                #[trigger] spec_add_token(entries, skip, stop, tok)[k],
            ) && !stop.contains(spec_add_token(entries, skip, stop, tok)[k]),
{
    let r = spec_add_token(entries, skip, stop, tok);
    assert(r.take(entries.len() as int) =~= entries);
    if !(skip.contains(tok) || stop.contains(tok) || entries.contains(tok)) && spec_distinct(
        entries,
    ) {
        assert forall|i: int, j: int| 0 <= i < j < r.len() implies r[i] != r[j] by {
            if j == entries.len() as int {
                assert(r[j] == tok);
                assert(!entries.contains(tok));
                assert(entries[i] != tok);
            }
        }
    }
}

/// `lemma_add_token_props`, lifted to a whole token sequence.
pub proof fn lemma_add_tokens_props(
    entries: Seq<Seq<char>>,
    skip: Seq<Seq<char>>,
    stop: Seq<Seq<char>>,
    toks: Seq<Seq<char>>,
)
    ensures
        spec_add_tokens(entries, skip, stop, toks).take(entries.len() as int) == entries,
        spec_add_tokens(entries, skip, stop, toks).len() >= entries.len(),
        spec_distinct(entries) ==> spec_distinct(spec_add_tokens(entries, skip, stop, toks)),
        forall|k: int|
            entries.len() <= k < spec_add_tokens(entries, skip, stop, toks).len() ==> !skip.contains(
                #[trigger] spec_add_tokens(entries, skip, stop, toks)[k],
            ) && !stop.contains(spec_add_tokens(entries, skip, stop, toks)[k]),
    decreases toks.len(),
{
    if toks.len() == 0 {
        assert(spec_add_tokens(entries, skip, stop, toks).take(entries.len() as int) =~= entries);
    } else {
        let e1 = spec_add_token(entries, skip, stop, toks[0]);
        lemma_add_token_props(entries, skip, stop, toks[0]);
        lemma_add_tokens_props(e1, skip, stop, toks.drop_first());
        let r = spec_add_tokens(entries, skip, stop, toks);
        assert(r == spec_add_tokens(e1, skip, stop, toks.drop_first()));
        assert(r.take(entries.len() as int) =~= r.take(e1.len() as int).take(entries.len() as int));
        assert(r.take(e1.len() as int) == e1);
        assert(e1.take(entries.len() as int) =~= entries);
        assert(r.take(entries.len() as int) =~= entries);
        assert forall|k: int|
            entries.len() <= k < r.len() implies !skip.contains(#[trigger] r[k]) && !stop.contains(
            r[k],
        ) by {
            if k < e1.len() {
                assert(r[k] == r.take(e1.len() as int)[k]);
                assert(r[k] == e1[k]);
            }
        }
    }
}

// ---------------------------------------------------------------------------
// Id lookup during encoding
// ---------------------------------------------------------------------------
/// The id a token encodes to: its index in the vocabulary, or the unknown
/// id (the last index) when absent.
pub open spec fn spec_token_id(entries: Seq<Seq<char>>, tok: Seq<char>) -> usize {
    match spec_find(entries, tok) {
        Some(i) => i as usize,
        None => (entries.len() - 1) as usize,
    }
}

/// The id a tag encodes to: its index in the tag table, or the padding tag
/// id 0 when absent.
pub open spec fn spec_tag_id(entries: Seq<Seq<char>>, tag: Seq<char>) -> usize {
    match spec_find(entries, tag) {
        Some(i) => i as usize,
        None => 0,
    }
}

/// The id sequence of a token sequence under a vocabulary.
pub open spec fn spec_token_ids(entries: Seq<Seq<char>>, toks: Seq<Seq<char>>) -> Seq<usize> {
    Seq::new(toks.len(), |i: int| spec_token_id(entries, toks[i]))
}

/// The id sequence of a tag sequence under a tag table.
pub open spec fn spec_tag_ids(entries: Seq<Seq<char>>, tags: Seq<Seq<char>>) -> Seq<usize> {
    Seq::new(tags.len(), |i: int| spec_tag_id(entries, tags[i]))
}

/// Map each token to its id, absent tokens to the unknown id (last index).
pub fn encode_token_ids(entries: &Vec<String>, toks: &Vec<String>) -> (r: Vec<usize>)
    requires
        entries@.len() >= 1,
    ensures
        r@ == spec_token_ids(entries.deep_view(), toks.deep_view()),
{
    let ghost dv = entries.deep_view();
    let ghost tv = toks.deep_view();
    let mut r: Vec<usize> = Vec::new();
    let n = toks.len();
    let mut i: usize = 0;
    while i < n
        invariant
            dv == entries.deep_view(),
            tv == toks.deep_view(),
            dv.len() == entries@.len() >= 1,
            n == tv.len(),
            0 <= i <= n,
            r@ == spec_token_ids(dv, tv).take(i as int),
        decreases n - i,
    {
        assert(tv[i as int] == toks@[i as int]@);
        let id = match find_entry(entries, &toks[i]) {
            Some(j) => {
                proof {
                    lemma_find_from_props(dv, tv[i as int], 0);
                }
                j
            },
            None => entries.len() - 1,
        };
        r.push(id);
        assert(r@ =~= spec_token_ids(dv, tv).take(i as int + 1));
        i = i + 1;
    }
    assert(r@ =~= spec_token_ids(dv, tv));
    r
}

/// Map each tag to its id, absent tags to the padding tag id 0.
pub fn encode_tag_ids(entries: &Vec<String>, tags: &Vec<String>) -> (r: Vec<usize>)
    ensures
        r@ == spec_tag_ids(entries.deep_view(), tags.deep_view()),
{
    let ghost dv = entries.deep_view();
    let ghost tv = tags.deep_view();
    let mut r: Vec<usize> = Vec::new();
    let n = tags.len();
    let mut i: usize = 0;
    while i < n
        invariant
            dv == entries.deep_view(),
            tv == tags.deep_view(),
            n == tv.len(),
            0 <= i <= n,
            r@ == spec_tag_ids(dv, tv).take(i as int),
        decreases n - i,
    {
        assert(tv[i as int] == tags@[i as int]@);
        let id = match find_entry(entries, &tags[i]) {
            Some(j) => j,
            None => 0,
        };
        r.push(id);
        assert(r@ =~= spec_tag_ids(dv, tv).take(i as int + 1));
        i = i + 1;
    }
    assert(r@ =~= spec_tag_ids(dv, tv));
    r
}

/// Accumulation of a sequence of token lists, front to back.
pub open spec fn spec_add_token_lists(
    entries: Seq<Seq<char>>,
    skip: Seq<Seq<char>>,
    stop: Seq<Seq<char>>,
    lists: Seq<Seq<Seq<char>>>,
) -> Seq<Seq<char>>
    decreases lists.len(),
{
    if lists.len() == 0 {
        entries
    } else {
        spec_add_token_lists(
            spec_add_tokens(entries, skip, stop, lists[0]),
            skip,
            stop,
            lists.drop_first(),
        )
    }
}

/// `lemma_add_tokens_props`, lifted to a sequence of token lists.
pub proof fn lemma_add_token_lists_props(
    entries: Seq<Seq<char>>,
    skip: Seq<Seq<char>>,
    stop: Seq<Seq<char>>,
    lists: Seq<Seq<Seq<char>>>,
)
    ensures
        spec_add_token_lists(entries, skip, stop, lists).take(entries.len() as int) == entries,
        spec_add_token_lists(entries, skip, stop, lists).len() >= entries.len(),
        spec_distinct(entries) ==> spec_distinct(spec_add_token_lists(entries, skip, stop, lists)),
        forall|k: int|
            entries.len() <= k < spec_add_token_lists(entries, skip, stop, lists).len()
                ==> !skip.contains(#[trigger] spec_add_token_lists(entries, skip, stop, lists)[k])
                && !stop.contains(spec_add_token_lists(entries, skip, stop, lists)[k]),
    decreases lists.len(),
{
    if lists.len() == 0 {
        assert(spec_add_token_lists(entries, skip, stop, lists).take(entries.len() as int)
            =~= entries);
    } else {
        let e1 = spec_add_tokens(entries, skip, stop, lists[0]);
        lemma_add_tokens_props(entries, skip, stop, lists[0]);
        lemma_add_token_lists_props(e1, skip, stop, lists.drop_first());
        let r = spec_add_token_lists(entries, skip, stop, lists);
        assert(r == spec_add_token_lists(e1, skip, stop, lists.drop_first()));
        assert(r.take(entries.len() as int) =~= r.take(e1.len() as int).take(entries.len() as int));
        assert(r.take(e1.len() as int) == e1);
        assert(e1.take(entries.len() as int) == entries);
        assert(r.take(entries.len() as int) =~= entries);
        assert forall|k: int|
            entries.len() <= k < r.len() implies !skip.contains(#[trigger] r[k]) && !stop.contains(
            r[k],
        ) by {
            if k < e1.len() {
                assert(r[k] == r.take(e1.len() as int)[k]);
                assert(r[k] == e1[k]);
            }
        }
    }
}

/// In a table whose first entry is the padding string, whose last entry is
/// the unknown string, and whose entries are distinct, the padding string
/// is found at id 0 and the unknown string at the last id.
pub proof fn lemma_special_ids(dv: Seq<Seq<char>>, pad: Seq<char>, unk: Seq<char>)
    requires
        dv.len() >= 2,
        dv[0] == pad,
        dv.last() == unk,
        spec_distinct(dv),
    ensures
        spec_find(dv, pad) == Some(0int),
        spec_find(dv, unk) == Some(dv.len() - 1),
{
    lemma_find_from_props(dv, unk, 0);
    match spec_find(dv, unk) {
        Some(j) => {
            if j < dv.len() - 1 {
                assert(dv[j] == dv[dv.len() - 1]);
            }
        },
        None => {
            assert(dv[dv.len() - 1] != unk);
        },
    }
}

// ---------------------------------------------------------------------------
// Table serialization: one line per entry, id first
// ---------------------------------------------------------------------------
/// The persisted form of one table entry: the id, a tab, the string.
pub open spec fn spec_table_line(i: int, tok: Seq<char>) -> Seq<char> {
    crate::text::spec_dec(i) + seq!['\t'] + tok
}

/// One line per entry, in id order: `id<TAB>entry`.
pub fn table_lines(entries: &Vec<String>) -> (r: Vec<String>)
    ensures
        r@.len() == entries@.len(),
        forall|i: int|
            0 <= i < r@.len() ==> r.deep_view()[i] == spec_table_line(i, entries.deep_view()[i]),
{
    proof {
        reveal_strlit("\t");
    }
    let ghost dv = entries.deep_view();
    let n = entries.len();
    let mut r: Vec<String> = Vec::new();
    let mut i: usize = 0;
    while i < n
        invariant
            dv == entries.deep_view(),
            n == entries@.len(),
            0 <= i <= n,
            r@.len() == i,
            "\t"@ == seq!['\t'],
            forall|j: int| 0 <= j < i ==> r.deep_view()[j] == spec_table_line(j, dv[j]),
        decreases n - i,
    {
        let ghost r0 = r.deep_view();
        let mut line = crate::text::fmt_usize(i);
        line.append("\t");
        line.append(entries[i].as_str());
        assert(line@ == spec_table_line(i as int, dv[i as int]));
        r.push(line);
        proof {
            assert(r.deep_view() =~= r0.push(line@));
        }
        i = i + 1;
    }
    r
}

} // verus!
