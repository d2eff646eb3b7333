use vstd::prelude::*;
use bytes::Bytes;
use crate::buffer::bytes_view;

verus! {

/// One change to the flat keyspace.
#[derive(Debug, PartialEq)]
pub enum Update {
    Put { key: Bytes, value: Bytes },
    Delete { key: Bytes },
    DeleteRange { from_key: Bytes, to_key: Bytes },
}

/// An `Update` as plain byte sequences.
pub enum UpdateView {
    Put { key: Seq<u8>, value: Seq<u8> },
    Delete { key: Seq<u8> },
    DeleteRange { from_key: Seq<u8>, to_key: Seq<u8> },
}

impl View for Update {
    type V = UpdateView;

    open spec fn view(&self) -> UpdateView {
        match *self {
            Update::Put { key, value } => UpdateView::Put {
                key: bytes_view(key),
                value: bytes_view(value),
            },
            Update::Delete { key } => UpdateView::Delete { key: bytes_view(key) },
            Update::DeleteRange { from_key, to_key } => UpdateView::DeleteRange {
                from_key: bytes_view(from_key),
                to_key: bytes_view(to_key),
            },
        }
    }
}

impl DeepView for Update {
    type V = UpdateView;

    open spec fn deep_view(&self) -> UpdateView {
        self.view()
    }
}

} // verus!
