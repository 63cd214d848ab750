//! The session state shared by both directions of traffic: the most
//! recently opened, not yet closed document.

use vstd::prelude::*;

verus! {

use crate::json::bytes_clone;

/// The state transition an open notification makes: the document
/// becomes the tracked one, whatever was tracked before.
pub open spec fn open_transition(st: Option<Seq<u8>>, uri: Seq<u8>) -> Option<Seq<u8>> {
    Some(uri)
}

/// The state transition a close notification makes: only a close of the
/// tracked document clears it; a stale close changes nothing.
pub open spec fn close_transition(st: Option<Seq<u8>>, uri: Seq<u8>) -> Option<Seq<u8>> {
    if st == Some(uri) {
        None
    } else {
        st
    }
}

/// The shared session state.
#[derive(Debug, PartialEq, Eq)]
pub struct SessionState {
    /// The URI of the tracked document, if one is open.
    pub opened_document: Option<Vec<u8>>,
}

impl SessionState {
    /// The model of the tracked document.
    pub open spec fn opened(self) -> Option<Seq<u8>> {
        match self.opened_document {
            Some(ref u) => Some(u@),
            None => None,
        }
    }

    /// A fresh session tracks no document.
    pub fn new() -> (s: Self)
        ensures
            s.opened() is None,
    {
        SessionState { opened_document: None }
    }

    /// Records `uri` as the opened document.
    pub fn did_open(&mut self, uri: &Vec<u8>)
        ensures
            final(self).opened() == open_transition(old(self).opened(), uri@),
    {
        self.opened_document = Some(bytes_clone(uri));
    }

    /// Clears the tracked document, but only when `uri` is the one
    /// tracked.
    pub fn did_close(&mut self, uri: &Vec<u8>)
        ensures
            final(self).opened() == close_transition(old(self).opened(), uri@),
    {
        let clear = match &self.opened_document {
            Some(cur) => crate::bytes_util::bytes_eq(cur, uri),
            None => false,
        };
        if clear {
            self.opened_document = None;
        }
    }
}

/// Opening a document and then closing it leaves no document tracked.
pub proof fn lemma_open_close_clears(st: Option<Seq<u8>>, uri: Seq<u8>)
    ensures
        close_transition(open_transition(st, uri), uri) is None,
{
}

/// A close that races a newer open is a no-op: after opening one
/// document and then another, closing the first leaves the second
/// tracked.
pub proof fn lemma_stale_close_keeps_newer(st: Option<Seq<u8>>, first: Seq<u8>, second: Seq<u8>)
    requires
        first != second,
    ensures
        close_transition(open_transition(open_transition(st, first), second), first) == Some(
            second,
        ),
{
}

} // verus!
