//! The replace-all ingest step: a fetched and parsed feed batch replaces the store's
//! contents, or, on any failure, the store stays as it was.
use crate::event::{ElectricityEvent, EventView};
use crate::store::{all_fit, batch_map, views, Store};
use vstd::prelude::*;

verus! {

/// Why a refresh did not replace the store.
#[derive(Clone, Debug, PartialEq, Eq)]
pub enum IngestError {
    /// The feed could not be reached; the text says why.
    FetchError(String),
    /// The feed's answer is not a list of records; the text says why.
    ParseError(String),
    /// A record of the batch has no encoding within the size bound.
    EncodingError,
}

/// The text that describes a failure: the fetch's or the parser's own words, or a fixed
/// sentence for an oversize record.
pub open spec fn description(e: IngestError) -> Seq<char> {
    match e {
        IngestError::FetchError(m) => m@,
        IngestError::ParseError(m) => m@,
        IngestError::EncodingError => "a record exceeds the maximum encoded size"@,
    }
}

impl IngestError {
    /// A description of the failure for the caller.
    pub fn describe(&self) -> (r: String)
        ensures
            r@ == description(*self),
    {
        match self {
            IngestError::FetchError(m) => m.clone(),
            IngestError::ParseError(m) => m.clone(),
            IngestError::EncodingError => "a record exceeds the maximum encoded size".to_owned(),
        }
    }
}

/// The batch that a feed outcome carries, if it carries one.
pub open spec fn feed_batch(feed: Result<Vec<ElectricityEvent>, IngestError>) -> Option<
    Seq<EventView>,
> {
    match feed {
        Ok(batch) => Some(views(batch@)),
        Err(_) => None,
    }
}

/// The store's contents after a refresh from `batch`: the batch, filed by timestamp,
/// where there is one and all of it can be encoded; else the contents before.
pub open spec fn refresh_outcome(before: Map<u64, EventView>, batch: Option<Seq<EventView>>) -> Map<
    u64,
    EventView,
> {
    match batch {
        Some(b) => if all_fit(b) {
            batch_map(b)
        } else {
            before
        },
        None => before,
    }
}

/// Applies the outcome of one feed fetch to the store. A failed fetch or parse is handed
/// back and leaves the store as it was; a batch replaces the store's contents as
/// `Store::clear_and_replace` does, or fails with `EncodingError` and changes nothing.
pub fn refresh(store: &mut Store, feed: Result<Vec<ElectricityEvent>, IngestError>) -> (r: Result<
    (),
    IngestError,
>)
    requires
        old(store).wf(),
    ensures
        final(store).wf(),
        final(store)@ == refresh_outcome(old(store)@, feed_batch(feed)),
        feed is Err ==> final(store)@ == old(store)@,
        feed is Err ==> r == Err::<(), IngestError>(feed->Err_0),
        feed is Ok ==> (r is Ok <==> all_fit(views(feed->Ok_0@))),
        feed is Ok && r is Err ==> r == Err::<(), IngestError>(IngestError::EncodingError),
{
    match feed {
        Err(e) => Err(e),
        Ok(batch) => match store.clear_and_replace(&batch) {
            Ok(()) => Ok(()),
            Err(_) => Err(IngestError::EncodingError),
        },
    }
}

/// One refresh as the update entry point reports it: `Ok` where the store was replaced,
/// else the failure's description.
pub fn update_electricity_events(
    store: &mut Store,
    feed: Result<Vec<ElectricityEvent>, IngestError>,
) -> (r: Result<(), String>)
    requires
        old(store).wf(),
    ensures
        final(store).wf(),
        final(store)@ == refresh_outcome(old(store)@, feed_batch(feed)),
        r is Ok <==> (feed is Ok && all_fit(views(feed->Ok_0@))),
        feed is Err ==> r is Err && r->Err_0@ == description(feed->Err_0),
        feed is Ok && r is Err ==> r->Err_0@ == description(IngestError::EncodingError),
{
    match refresh(store, feed) {
        Ok(()) => Ok(()),
        Err(e) => Err(e.describe()),
    }
}

/// Refreshing twice from the same feed outcome leaves the store as refreshing once does.
pub proof fn lemma_refresh_idempotent(before: Map<u64, EventView>, batch: Option<Seq<EventView>>)
    ensures
        refresh_outcome(refresh_outcome(before, batch), batch) == refresh_outcome(before, batch),
{
}

} // verus!
