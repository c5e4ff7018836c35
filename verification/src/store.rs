//! Context metadata as the store keeps it: the client tag, title, labels
//! and provenance extracted from a context's first turn.
use vstd::prelude::*;

verus! {

/// Provenance fields of a context that the indexes read.
#[derive(Debug)]
pub struct Provenance {
    pub on_behalf_of: Option<String>,
    pub service_name: Option<String>,
    pub host_name: Option<String>,
    pub trace_id: Option<String>,
    pub parent_context_id: Option<u64>,
    pub root_context_id: Option<u64>,
}

/// Metadata of a context that the indexes read.
#[derive(Debug)]
pub struct ContextMetadata {
    pub client_tag: Option<String>,
    pub title: Option<String>,
    pub labels: Option<Vec<String>>,
    pub provenance: Option<Provenance>,
}

impl Default for Provenance {
    fn default() -> (r: Provenance)
        ensures
            r.on_behalf_of is None,
            r.service_name is None,
            r.host_name is None,
            r.trace_id is None,
            r.parent_context_id is None,
            r.root_context_id is None,
    {
        Provenance {
            on_behalf_of: None,
            service_name: None,
            host_name: None,
            trace_id: None,
            parent_context_id: None,
            root_context_id: None,
        }
    }
}

/// The mathematical form of [`ContextMetadata`], provenance flattened.
pub struct MetaView {
    pub client_tag: Option<Seq<char>>,
    pub title: Option<Seq<char>>,
    pub labels: Option<Seq<Seq<char>>>,
    pub user: Option<Seq<char>>,
    pub service: Option<Seq<char>>,
    pub host: Option<Seq<char>>,
    pub trace_id: Option<Seq<char>>,
    pub parent: Option<u64>,
    pub root: Option<u64>,
}

pub open spec fn opt_view(o: Option<String>) -> Option<Seq<char>> {
    match o {
        Some(s) => Some(s@),
        None => None,
    }
}

impl View for ContextMetadata {
    type V = MetaView;

    open spec fn view(&self) -> MetaView {
        MetaView {
            client_tag: opt_view(self.client_tag),
            title: opt_view(self.title),
            labels: labels_view(self.labels),
            user: match self.provenance {
                Some(p) => opt_view(p.on_behalf_of),
                None => None,
            },
            service: match self.provenance {
                Some(p) => opt_view(p.service_name),
                None => None,
            },
            host: match self.provenance {
                Some(p) => opt_view(p.host_name),
                None => None,
            },
            trace_id: match self.provenance {
                Some(p) => opt_view(p.trace_id),
                None => None,
            },
            parent: match self.provenance {
                Some(p) => p.parent_context_id,
                None => None,
            },
            root: match self.provenance {
                Some(p) => p.root_context_id,
                None => None,
            },
        }
    }
}

pub open spec fn labels_view(o: Option<Vec<String>>) -> Option<Seq<Seq<char>>> {
    match o {
        Some(ls) => Some(ls@.map_values(|s: String| s@)),
        None => None,
    }
}

} // verus!
