//! How many items an upload creates.

use crate::config::DsConfig;
use crate::endpoint::{select, selected, violation, EndpointSelection};
use crate::error::UsageError;
use crate::opts::{UploadInput, UploadMeta};
use vstd::prelude::*;

verus! {

/// The requests of one upload and what each of them hands on to the
/// server.
#[derive(Debug, PartialEq, Eq)]
pub struct UploadPlan {
    /// The files of each request, one request for each item to create.
    pub batches: Vec<Vec<String>>,
    /// Whether the server is to skip files that it has already.
    pub skip_duplicates: bool,
    /// The tags for each item, in the order in which they were given.
    pub tags: Vec<String>,
}

/// The files of each request: one request for each file, or one request
/// with all the files.
pub open spec fn batches_of(files: Seq<Seq<char>>, multiple: bool) -> Seq<Seq<Seq<char>>> {
    if multiple {
        Seq::new(files.len(), |i: int| seq![files[i]])
    } else {
        seq![files]
    }
}

/// Whether the options exclude each other: one single item cannot be made
/// of the files that a traversal finds.
pub open spec fn conflicting(multiple: bool, traverse: bool) -> bool {
    !multiple && traverse
}

/// With one item for each file there are as many requests as files. With
/// one single item there is one request, however many files there are.
pub proof fn lemma_request_count(files: Seq<Seq<char>>)
    ensures
        batches_of(files, true).len() == files.len(),
        batches_of(files, false).len() == 1,
{
}

/// Every file is in exactly one request, and the requests follow the order
/// of the files.
pub proof fn lemma_batches_hold_the_files(files: Seq<Seq<char>>, multiple: bool)
    ensures
        batches_of(files, multiple).flatten() == files,
{
    let batches = batches_of(files, multiple);
    if multiple {
        lemma_flatten_singletons(files);
    } else {
        assert(batches.drop_first() =~= Seq::<Seq<Seq<char>>>::empty());
        assert(batches.flatten() =~= files + batches.drop_first().flatten());
        assert(batches.flatten() =~= files);
    }
}

proof fn lemma_flatten_singletons(files: Seq<Seq<char>>)
    ensures
        batches_of(files, true).flatten() == files,
    decreases files.len(),
{
    let batches = batches_of(files, true);
    if files.len() == 0 {
        assert(batches.flatten() =~= files);
    } else {
        assert(batches.drop_first() =~= batches_of(files.drop_first(), true));
        lemma_flatten_singletons(files.drop_first());
        assert(batches.flatten() =~= batches[0] + batches.drop_first().flatten());
        assert(batches.flatten() =~= files);
    }
}

fn copy_of(texts: &Vec<String>) -> (r: Vec<String>)
    ensures
        r.deep_view() == texts.deep_view(),
{
    let mut r: Vec<String> = Vec::new();
    let mut i: usize = 0;
    while i < texts.len()
        invariant
            i <= texts@.len(),
            r@.len() == i,
            forall|j: int| 0 <= j < i ==> r@[j]@ == texts@[j]@,
        decreases texts@.len() - i,
    {
        r.push(texts[i].clone());
        i = i + 1;
    }
    assert(r.deep_view() =~= texts.deep_view());
    r
}

/// Plans the requests of an upload of `files`. By default each file
/// becomes an item of its own, so there is one request for each file. With
/// `multiple` switched off there is exactly one request, which holds all the
/// files; this is refused together with traversal, and then nothing is
/// planned. Whether to skip duplicates is for the server to act on, and the
/// tags are handed on as they were given.
pub fn plan(files: &Vec<String>, meta: &UploadMeta, traverse: bool) -> (r: Result<
    UploadPlan,
    UsageError,
>)
    ensures
        match r {
            Ok(plan) => {
                &&& !conflicting(meta.multiple, traverse)
                &&& plan.batches.deep_view() == batches_of(files.deep_view(), meta.multiple)
                &&& plan.skip_duplicates == meta.skip_duplicates
                &&& plan.tags.deep_view() == meta.tag.deep_view()
            },
            Err(error) => conflicting(meta.multiple, traverse) && error
                == UsageError::SingleItemWithTraversal,
        },
{
    if !meta.multiple && traverse {
        return Err(UsageError::SingleItemWithTraversal);
    }
    let mut batches: Vec<Vec<String>> = Vec::new();
    if meta.multiple {
        let mut i: usize = 0;
        while i < files.len()
            invariant
                i <= files@.len(),
                batches@.len() == i,
                forall|j: int| 0 <= j < i ==> batches@[j].deep_view() == seq![files@[j]@],
            decreases files@.len() - i,
        {
            let mut batch: Vec<String> = Vec::new();
            batch.push(files[i].clone());
            assert(batch.deep_view() =~= seq![files@[i as int]@]);
            batches.push(batch);
            i = i + 1;
        }
    } else {
        batches.push(copy_of(files));
    }
    assert(batches.deep_view() =~= batches_of(files.deep_view(), meta.multiple));
    Ok(UploadPlan { batches, skip_duplicates: meta.skip_duplicates, tags: copy_of(&meta.tag) })
}

/// An upload that is ready to be sent.
#[derive(Debug, PartialEq, Eq)]
pub struct Upload {
    /// The endpoint that takes the requests.
    pub selection: EndpointSelection,
    /// The requests.
    pub plan: UploadPlan,
}

/// What keeps an upload from being sent, if anything does: the first rule
/// on endpoints that its options break, else the rule on single items.
pub open spec fn refusal(input: UploadInput, cfg: DsConfig, logged_in: bool) -> Option<UsageError> {
    if violation(input.endpoint, cfg, logged_in) is Some {
        violation(input.endpoint, cfg, logged_in)
    } else if conflicting(input.upload.multiple, input.traverse) {
        Some(UsageError::SingleItemWithTraversal)
    } else {
        None
    }
}

/// Checks all options of an upload and plans its requests. `logged_in`
/// says whether a session is available. Options that break a rule are
/// refused here, before anything is planned or sent.
pub fn prepare(input: &UploadInput, cfg: &DsConfig, logged_in: bool) -> (r: Result<
    Upload,
    UsageError,
>)
    ensures
        match r {
            Ok(upload) => {
                &&& refusal(*input, *cfg, logged_in) is None
                &&& upload.selection@ == selected(input.endpoint, *cfg)
                &&& upload.selection.wf()
                &&& upload.plan.batches.deep_view() == batches_of(
                    input.files.deep_view(),
                    input.upload.multiple,
                )
                &&& upload.plan.skip_duplicates == input.upload.skip_duplicates
                &&& upload.plan.tags.deep_view() == input.upload.tag.deep_view()
            },
            Err(error) => refusal(*input, *cfg, logged_in) == Some(error),
        },
        input.endpoint.integration && input.endpoint.collective is None ==> r is Err,
{
    let selection = match select(&input.endpoint, cfg, logged_in) {
        Ok(selection) => selection,
        Err(error) => {
            return Err(error);
        },
    };
    match plan(&input.files, &input.upload, input.traverse) {
        Ok(plan) => Ok(Upload { selection, plan }),
        Err(error) => Err(error),
    }
}

} // verus!
