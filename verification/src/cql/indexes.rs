//! Secondary indexes over context metadata, the data the query executor reads.
//!
//! The mathematical model of the indexes is the set of contexts they know, the
//! metadata each context was indexed with, and the (creation time, head depth)
//! recorded for each context.  Every lookup is stated over that model: an exact
//! lookup gives the contexts whose field equals the value, a case-insensitive
//! one compares the Unicode lowercase forms, a prefix lookup gives the contexts
//! whose field starts with the prefix, and a range lookup gives the contexts
//! whose creation time or depth lies in the range.
use vstd::prelude::*;
use std::collections::HashSet;
use crate::text::{ascii_lower_char, ascii_upper_char, is_ascii_char, has_prefix, lowercase, chars_start_with, chars_of, chars_eq, to_lowercase, str_eq};
use crate::idset::{empty_ids, lemma_to_set_push};
use crate::store::{ContextMetadata, MetaView, opt_view, labels_view};

verus! {

broadcast use vstd::std_specs::hash::group_hash_axioms;

/// The head of a context: its latest turn, depth and creation time.
#[derive(Clone, Copy, Debug, PartialEq, Eq)]
pub struct ContextHead {
    pub context_id: u64,
    pub head_turn_id: u64,
    pub head_depth: u32,
    pub created_at_unix_ms: u64,
    pub flags: u32,
}

/// The string-valued indexes.
#[derive(Clone, Copy, Debug, PartialEq, Eq, Structural)]
pub enum StrField {
    Tag,
    TagLower,
    Title,
    TitleLower,
    Label,
    User,
    UserLower,
    Service,
    ServiceLower,
    Host,
    TraceId,
}

/// Whether a context with metadata `m` is indexed under `s` in index `f`.
pub open spec fn has_str(m: MetaView, f: StrField, s: Seq<char>) -> bool {
    match f {
        StrField::Tag => m.client_tag == Some(s),
        StrField::TagLower => m.client_tag matches Some(t) && lowercase(t) == s,
        StrField::Title => m.title == Some(s),
        StrField::TitleLower => m.title matches Some(t) && lowercase(t) == s,
        StrField::Label => m.labels matches Some(ls) && ls.contains(s),
        StrField::User => m.user == Some(s),
        StrField::UserLower => m.user matches Some(t) && lowercase(t) == s,
        StrField::Service => m.service == Some(s),
        StrField::ServiceLower => m.service matches Some(t) && lowercase(t) == s,
        StrField::Host => m.host == Some(s),
        StrField::TraceId => m.trace_id == Some(s),
    }
}

/// Comparisons of a range lookup.
#[derive(Clone, Copy, Debug, PartialEq, Eq, Structural)]
pub enum RangeOp {
    Gt,
    Gte,
    Lt,
    Lte,
    Eq,
}

pub open spec fn in_range(op: RangeOp, x: u64, bound: u64) -> bool {
    match op {
        RangeOp::Gt => x > bound,
        RangeOp::Gte => x >= bound,
        RangeOp::Lt => x < bound,
        RangeOp::Lte => x <= bound,
        RangeOp::Eq => x == bound,
    }
}

/// The model of the indexes.
pub struct IndexModel {
    /// Every context the indexes know.
    pub all: Set<u64>,
    /// (context, metadata) for each context indexed with metadata.
    pub metas: Set<(u64, MetaView)>,
    /// (context, creation time in ms, head depth) for each context with a head.
    pub heads: Set<(u64, u64, u32)>,
}

impl IndexModel {
    /// (key, context) pairs of a string index.
    pub open spec fn field_pairs(self, f: StrField) -> Set<(Seq<char>, u64)> {
        Set::new(|p: (Seq<char>, u64)| exists|m: MetaView| self.metas.contains((p.1, m)) && has_str(m, f, p.0))
    }

    /// Contexts indexed under exactly `v`.
    pub open spec fn exact(self, f: StrField, v: Seq<char>) -> Set<u64> {
        Set::new(|id: u64| self.field_pairs(f).contains((v, id)))
    }

    /// Contexts indexed under a key that starts with `prefix`.
    pub open spec fn prefixed(self, f: StrField, prefix: Seq<char>) -> Set<u64> {
        Set::new(|id: u64| exists|s: Seq<char>| self.field_pairs(f).contains((s, id)) && has_prefix(s, prefix))
    }

    /// Contexts whose provenance names `v` as parent (`parent`) or as root.
    pub open spec fn linked(self, parent: bool, v: u64) -> Set<u64> {
        Set::new(|id: u64| link_pairs(self.metas, parent).contains((v, id)))
    }

    /// Contexts whose creation time `c` satisfies `in_range(op, c, t)`.
    pub open spec fn created_in(self, op: RangeOp, t: u64) -> Set<u64> {
        Set::new(|id: u64| exists|c: u64, d: u32| self.heads.contains((id, c, d)) && in_range(op, c, t))
    }

    /// Contexts whose head depth `d` satisfies `in_range(op, d, t)`.
    pub open spec fn depth_in(self, op: RangeOp, t: u32) -> Set<u64> {
        Set::new(|id: u64| exists|c: u64, d: u32| self.heads.contains((id, c, d)) && in_range(op, d as u64, t as u64))
    }

    /// The model after indexing one context's metadata.
    pub open spec fn with_meta(self, id: u64, m: MetaView) -> IndexModel {
        IndexModel { metas: self.metas.insert((id, m)), ..self }
    }

    /// The model after recording one context's head data.
    pub open spec fn with_head(self, id: u64, created: u64, depth: u32) -> IndexModel {
        IndexModel { all: self.all.insert(id), heads: self.heads.insert((id, created, depth)), ..self }
    }
}

pub open spec fn empty_model() -> IndexModel {
    IndexModel { all: Set::empty(), metas: Set::empty(), heads: Set::empty() }
}

/// (key, context) pairs held in a vector.
pub open spec fn pairs_of(v: Seq<(String, u64)>) -> Set<(Seq<char>, u64)> {
    Set::new(|p: (Seq<char>, u64)| exists|i: int| 0 <= i < v.len() && v[i].0@ == p.0 && v[i].1 == p.1)
}

/// (creation time, context) pairs of the recorded heads.
pub open spec fn created_pairs(heads: Set<(u64, u64, u32)>) -> Set<(u64, u64)> {
    Set::new(|p: (u64, u64)| exists|d: u32| heads.contains((p.1, p.0, d)))
}

/// (depth, context) pairs of the recorded heads.
pub open spec fn depth_pairs(heads: Set<(u64, u64, u32)>) -> Set<(u64, u64)> {
    Set::new(|p: (u64, u64)| exists|c: u64, d: u32| heads.contains((p.1, c, d)) && p.0 == d as u64)
}

/// Counts of distinct keys in some indexes.
#[derive(Clone, Copy, Debug)]
pub struct IndexStats {
    pub contexts_indexed: usize,
    pub tag_entries: usize,
    pub title_entries: usize,
    pub user_entries: usize,
    pub service_entries: usize,
    pub host_entries: usize,
    pub created_entries: usize,
}

/// Secondary indexes for query execution.
pub struct SecondaryIndexes {
    tag: Vec<(String, u64)>,
    tag_lower: Vec<(String, u64)>,
    title: Vec<(String, u64)>,
    title_lower: Vec<(String, u64)>,
    label: Vec<(String, u64)>,
    user: Vec<(String, u64)>,
    user_lower: Vec<(String, u64)>,
    service: Vec<(String, u64)>,
    service_lower: Vec<(String, u64)>,
    host: Vec<(String, u64)>,
    trace_id: Vec<(String, u64)>,
    parent: Vec<(u64, u64)>,
    root: Vec<(u64, u64)>,
    created: Vec<(u64, u64)>,
    depth: Vec<(u64, u64)>,
    all_context_ids: HashSet<u64>,
    model: Ghost<IndexModel>,
}

impl View for SecondaryIndexes {
    type V = IndexModel;

    closed spec fn view(&self) -> IndexModel {
        self.model@
    }
}

impl SecondaryIndexes {
    pub closed spec fn vec_of(&self, f: StrField) -> Seq<(String, u64)> {
        match f {
            StrField::Tag => self.tag@,
            StrField::TagLower => self.tag_lower@,
            StrField::Title => self.title@,
            StrField::TitleLower => self.title_lower@,
            StrField::Label => self.label@,
            StrField::User => self.user@,
            StrField::UserLower => self.user_lower@,
            StrField::Service => self.service@,
            StrField::ServiceLower => self.service_lower@,
            StrField::Host => self.host@,
            StrField::TraceId => self.trace_id@,
        }
    }

    /// The vectors hold exactly the pairs the model gives.
    pub closed spec fn wf(&self) -> bool {
        &&& forall|f: StrField| #[trigger] pairs_of(self.vec_of(f)) == self@.field_pairs(f)
        &&& self.parent@.to_set() == link_pairs(self@.metas, true)
        &&& self.root@.to_set() == link_pairs(self@.metas, false)
        &&& self.created@.to_set() == created_pairs(self@.heads)
        &&& self.depth@.to_set() == depth_pairs(self@.heads)
        &&& self.all_context_ids@ == self@.all
        &&& forall|id: u64, c: u64, d: u32| #[trigger] self@.heads.contains((id, c, d)) ==> self@.all.contains(id)
    }

    /// Empty indexes.
    pub fn new() -> (r: SecondaryIndexes)
        ensures
            r.wf(),
            r@ == empty_model(),
    {
        let r = SecondaryIndexes {
            tag: Vec::new(),
            tag_lower: Vec::new(),
            title: Vec::new(),
            title_lower: Vec::new(),
            label: Vec::new(),
            user: Vec::new(),
            user_lower: Vec::new(),
            service: Vec::new(),
            service_lower: Vec::new(),
            host: Vec::new(),
            trace_id: Vec::new(),
            parent: Vec::new(),
            root: Vec::new(),
            created: Vec::new(),
            depth: Vec::new(),
            all_context_ids: HashSet::new(),
            model: Ghost(empty_model()),
        };
        assert forall|f: StrField| #[trigger] pairs_of(r.vec_of(f)) == r@.field_pairs(f) by {
            assert(pairs_of(r.vec_of(f)) =~= r@.field_pairs(f));
        }
        assert(r.parent@.to_set() =~= link_pairs(r@.metas, true));
        assert(r.root@.to_set() =~= link_pairs(r@.metas, false));
        assert(r.created@.to_set() =~= created_pairs(r@.heads));
        assert(r.depth@.to_set() =~= depth_pairs(r@.heads));
        r
    }
}


/// The pairs one context contributes to a string index.
pub open spec fn new_pairs(m: MetaView, f: StrField, id: u64) -> Set<(Seq<char>, u64)> {
    Set::new(|p: (Seq<char>, u64)| p.1 == id && has_str(m, f, p.0))
}

pub open spec fn label_pairs(o: Option<Seq<Seq<char>>>, id: u64) -> Set<(Seq<char>, u64)> {
    Set::new(|p: (Seq<char>, u64)| p.1 == id && (o matches Some(ls) && ls.contains(p.0)))
}

pub open spec fn opt_pair(o: Option<Seq<char>>, id: u64) -> Set<(Seq<char>, u64)> {
    match o {
        Some(s) => Set::empty().insert((s, id)),
        None => Set::empty(),
    }
}

pub open spec fn opt_lower_pair(o: Option<Seq<char>>, id: u64) -> Set<(Seq<char>, u64)> {
    match o {
        Some(s) => Set::empty().insert((lowercase(s), id)),
        None => Set::empty(),
    }
}

proof fn lemma_field_pairs_insert(model: IndexModel, id: u64, m: MetaView, f: StrField)
    ensures
        model.with_meta(id, m).field_pairs(f) == model.field_pairs(f).union(new_pairs(m, f, id)),
{
    assert(model.with_meta(id, m).field_pairs(f) =~= model.field_pairs(f).union(new_pairs(m, f, id)));
}

pub open spec fn link_of(m: MetaView, parent: bool) -> Option<u64> {
    if parent {
        m.parent
    } else {
        m.root
    }
}

pub open spec fn link_pairs(metas: Set<(u64, MetaView)>, parent: bool) -> Set<(u64, u64)> {
    Set::new(|p: (u64, u64)| exists|mm: MetaView| metas.contains((p.1, mm)) && link_of(mm, parent) == Some(p.0))
}

proof fn lemma_link_pairs_insert(metas: Set<(u64, MetaView)>, id: u64, m: MetaView, parent: bool)
    ensures
        link_pairs(metas.insert((id, m)), parent) == link_pairs(metas, parent).union(
            match link_of(m, parent) {
                Some(k) => Set::empty().insert((k, id)),
                None => Set::empty(),
            },
        ),
{
    let extra: Set<(u64, u64)> = match link_of(m, parent) {
        Some(k) => Set::empty().insert((k, id)),
        None => Set::empty(),
    };
    assert forall|p: (u64, u64)| #[trigger] link_pairs(metas.insert((id, m)), parent).contains(p) <==> link_pairs(metas, parent).union(extra).contains(p) by {
        if link_pairs(metas.insert((id, m)), parent).contains(p) {
            let mm = choose|mm: MetaView| metas.insert((id, m)).contains((p.1, mm)) && link_of(mm, parent) == Some(p.0);
            if (p.1, mm) != (id, m) {
                assert(metas.contains((p.1, mm)));
            }
        }
        if link_pairs(metas, parent).contains(p) {
            let mm = choose|mm: MetaView| metas.contains((p.1, mm)) && link_of(mm, parent) == Some(p.0);
            assert(metas.insert((id, m)).contains((p.1, mm)));
        }
        if extra.contains(p) {
            assert(metas.insert((id, m)).contains((id, m)));
        }
    }
    assert(link_pairs(metas.insert((id, m)), parent) =~= link_pairs(metas, parent).union(extra));
}

proof fn lemma_pairs_push(v: Seq<(String, u64)>, x: (String, u64))
    ensures
        pairs_of(v.push(x)) == pairs_of(v).insert((x.0@, x.1)),
{
    assert forall|p: (Seq<char>, u64)| pairs_of(v.push(x)).contains(p) <==> #[trigger] pairs_of(v).insert((x.0@, x.1)).contains(p) by {
        if pairs_of(v).contains(p) {
            let i = choose|i: int| 0 <= i < v.len() && v[i].0@ == p.0 && v[i].1 == p.1;
            assert(v.push(x)[i] == v[i]);
        }
        if pairs_of(v.push(x)).contains(p) {
            let i = choose|i: int| 0 <= i < v.push(x).len() && v.push(x)[i].0@ == p.0 && v.push(x)[i].1 == p.1;
            if i < v.len() {
                assert(v[i] == v.push(x)[i]);
            }
        }
        if p == (x.0@, x.1) {
            assert(v.push(x)[v.len() as int] == x);
        }
    }
    assert(pairs_of(v.push(x)) =~= pairs_of(v).insert((x.0@, x.1)));
}

fn add_opt(v: &mut Vec<(String, u64)>, s: &Option<String>, id: u64)
    ensures
        pairs_of(final(v)@) == pairs_of(old(v)@).union(opt_pair(opt_view(*s), id)),
{
    match s {
        Some(x) => {
            let ghost before = v@;
            let c = x.clone();
            let ghost item = (c, id);
            v.push((c, id));
            proof {
                lemma_pairs_push(before, item);
                assert(pairs_of(v@) =~= pairs_of(before).union(opt_pair(opt_view(*s), id)));
            }
        },
        None => {
            assert(pairs_of(v@) =~= pairs_of(old(v)@).union(opt_pair(opt_view(*s), id)));
        },
    }
}

fn add_opt_lower(v: &mut Vec<(String, u64)>, s: &Option<String>, id: u64)
    ensures
        pairs_of(final(v)@) == pairs_of(old(v)@).union(opt_lower_pair(opt_view(*s), id)),
{
    match s {
        Some(x) => {
            let ghost before = v@;
            let lower = to_lowercase(x.as_str());
            v.push((lower, id));
            proof {
                lemma_pairs_push(before, (lower, id));
                assert(pairs_of(v@) =~= pairs_of(before).union(opt_lower_pair(opt_view(*s), id)));
            }
        },
        None => {
            assert(pairs_of(v@) =~= pairs_of(old(v)@).union(opt_lower_pair(opt_view(*s), id)));
        },
    }
}

fn add_labels(v: &mut Vec<(String, u64)>, labels: &Option<Vec<String>>, id: u64)
    ensures
        pairs_of(final(v)@) == pairs_of(old(v)@).union(
            label_pairs(labels_view(*labels), id),
        ),
{
    match labels {
        Some(ls) => {
            let ghost lv = ls@.map_values(|s: String| s@);
            let mut i: usize = 0;
            while i < ls.len()
                invariant
                    0 <= i <= ls@.len(),
                    lv == ls@.map_values(|s: String| s@),
                    pairs_of(v@) == pairs_of(old(v)@).union(
                        Set::new(|p: (Seq<char>, u64)| p.1 == id && lv.take(i as int).contains(p.0)),
                    ),
                decreases ls@.len() - i,
            {
                let ghost before = v@;
                let ghost prev = lv.take(i as int);
                let c = ls[i].clone();
                let ghost item = (c, id);
                v.push((c, id));
                proof {
                    lemma_pairs_push(before, item);
                    assert(lv.take(i + 1) =~= prev.push(lv[i as int]));
                    assert forall|p: (Seq<char>, u64)| #[trigger] pairs_of(v@).contains(p) <==> pairs_of(old(v)@).union(
                        Set::new(|p: (Seq<char>, u64)| p.1 == id && lv.take(i + 1).contains(p.0)),
                    ).contains(p) by {
                        if prev.push(lv[i as int]).contains(p.0) && p.0 != lv[i as int] {
                            let j = choose|j: int| 0 <= j < prev.push(lv[i as int]).len() && prev.push(lv[i as int])[j] == p.0;
                            assert(prev[j] == p.0);
                        }
                        if prev.contains(p.0) {
                            let j = choose|j: int| 0 <= j < prev.len() && prev[j] == p.0;
                            assert(prev.push(lv[i as int])[j] == p.0);
                        }
                        if p.0 == lv[i as int] {
                            assert(prev.push(lv[i as int])[i as int] == p.0);
                        }
                    }
                    assert(pairs_of(v@) =~= pairs_of(old(v)@).union(
                        Set::new(|p: (Seq<char>, u64)| p.1 == id && lv.take(i + 1).contains(p.0)),
                    ));
                }
                i += 1;
            }
            assert(lv.take(ls@.len() as int) =~= lv);
            assert(pairs_of(v@) =~= pairs_of(old(v)@).union(
                label_pairs(labels_view(*labels), id),
            ));
        },
        None => {
            assert(pairs_of(v@) =~= pairs_of(old(v)@).union(
                label_pairs(labels_view(*labels), id),
            ));
        },
    }
}

fn add_num_opt(v: &mut Vec<(u64, u64)>, key: Option<u64>, id: u64)
    ensures
        final(v)@.to_set() == old(v)@.to_set().union(
            match key {
                Some(k) => Set::empty().insert((k, id)),
                None => Set::empty(),
            },
        ),
{
    if let Some(k) = key {
        let ghost before = v@;
        v.push((k, id));
        proof {
            lemma_to_set_push_pair(before, (k, id));
        }
    } else {
        assert(v@.to_set() =~= old(v)@.to_set().union(Set::empty()));
    }
}

pub proof fn lemma_to_set_push_pair<K>(s: Seq<(K, u64)>, x: (K, u64))
    ensures
        s.push(x).to_set() == s.to_set().insert(x),
{
    assert forall|y: (K, u64)| #[trigger] s.push(x).to_set().contains(y) <==> s.to_set().insert(x).contains(y) by {
        if y == x {
            assert(s.push(x)[s.len() as int] == x);
        } else if s.push(x).contains(y) {
            let i = choose|i: int| 0 <= i < s.push(x).len() && s.push(x)[i] == y;
            assert(s[i] == y);
        } else if s.contains(y) {
            let i = choose|i: int| 0 <= i < s.len() && s[i] == y;
            assert(s.push(x)[i] == y);
        }
    }
    assert(s.push(x).to_set() =~= s.to_set().insert(x));
}

impl SecondaryIndexes {
    /// Indexes one context's metadata.
    fn index_metadata(&mut self, context_id: u64, metadata: &ContextMetadata)
        requires
            old(self).wf(),
        ensures
            final(self).wf(),
            final(self)@ == old(self)@.with_meta(context_id, metadata@),
    {
        let ghost m = metadata@;
        let ghost old_model = self@;
        add_opt(&mut self.tag, &metadata.client_tag, context_id);
        add_opt_lower(&mut self.tag_lower, &metadata.client_tag, context_id);
        add_opt(&mut self.title, &metadata.title, context_id);
        add_opt_lower(&mut self.title_lower, &metadata.title, context_id);
        add_labels(&mut self.label, &metadata.labels, context_id);
        let no_prov: Option<String> = None;
        match &metadata.provenance {
            Some(prov) => {
                add_opt(&mut self.user, &prov.on_behalf_of, context_id);
                add_opt_lower(&mut self.user_lower, &prov.on_behalf_of, context_id);
                add_opt(&mut self.service, &prov.service_name, context_id);
                add_opt_lower(&mut self.service_lower, &prov.service_name, context_id);
                add_opt(&mut self.host, &prov.host_name, context_id);
                add_opt(&mut self.trace_id, &prov.trace_id, context_id);
                add_num_opt(&mut self.parent, prov.parent_context_id, context_id);
                add_num_opt(&mut self.root, prov.root_context_id, context_id);
                assert(m.user == opt_view(prov.on_behalf_of));
                assert(m.service == opt_view(prov.service_name));
                assert(m.host == opt_view(prov.host_name));
                assert(m.trace_id == opt_view(prov.trace_id));
                assert(m.parent == prov.parent_context_id);
                assert(m.root == prov.root_context_id);
            },
            None => {
                add_opt(&mut self.user, &no_prov, context_id);
                add_opt_lower(&mut self.user_lower, &no_prov, context_id);
                add_opt(&mut self.service, &no_prov, context_id);
                add_opt_lower(&mut self.service_lower, &no_prov, context_id);
                add_opt(&mut self.host, &no_prov, context_id);
                add_opt(&mut self.trace_id, &no_prov, context_id);
                add_num_opt(&mut self.parent, None, context_id);
                add_num_opt(&mut self.root, None, context_id);
            },
        }
        let ghost parent_new: Set<(u64, u64)> = match m.parent {
            Some(k) => Set::empty().insert((k, context_id)),
            None => Set::empty(),
        };
        let ghost root_new: Set<(u64, u64)> = match m.root {
            Some(k) => Set::empty().insert((k, context_id)),
            None => Set::empty(),
        };
        assert(pairs_of(self.user@) == pairs_of(old(self).user@).union(opt_pair(m.user, context_id)));
        assert(pairs_of(self.user_lower@) == pairs_of(old(self).user_lower@).union(opt_lower_pair(m.user, context_id)));
        assert(pairs_of(self.service@) == pairs_of(old(self).service@).union(opt_pair(m.service, context_id)));
        assert(pairs_of(self.service_lower@) == pairs_of(old(self).service_lower@).union(opt_lower_pair(m.service, context_id)));
        assert(pairs_of(self.host@) == pairs_of(old(self).host@).union(opt_pair(m.host, context_id)));
        assert(pairs_of(self.trace_id@) == pairs_of(old(self).trace_id@).union(opt_pair(m.trace_id, context_id)));
        assert(self.parent@.to_set() == old(self).parent@.to_set().union(parent_new));
        assert(self.root@.to_set() == old(self).root@.to_set().union(root_new));
        self.model = Ghost(old_model.with_meta(context_id, m));
        proof {
            assert forall|f: StrField| #[trigger] pairs_of(self.vec_of(f)) == self@.field_pairs(f) by {
                assert(pairs_of(old(self).vec_of(f)) == old_model.field_pairs(f));
                lemma_field_pairs_insert(old_model, context_id, m, f);
                match f {
                    StrField::Tag => assert(new_pairs(m, f, context_id) =~= opt_pair(m.client_tag, context_id)),
                    StrField::TagLower => assert(new_pairs(m, f, context_id) =~= opt_lower_pair(m.client_tag, context_id)),
                    StrField::Title => assert(new_pairs(m, f, context_id) =~= opt_pair(m.title, context_id)),
                    StrField::TitleLower => assert(new_pairs(m, f, context_id) =~= opt_lower_pair(m.title, context_id)),
                    StrField::Label => assert(new_pairs(m, f, context_id) =~= label_pairs(m.labels, context_id)),
                    StrField::User => assert(new_pairs(m, f, context_id) =~= opt_pair(m.user, context_id)),
                    StrField::UserLower => assert(new_pairs(m, f, context_id) =~= opt_lower_pair(m.user, context_id)),
                    StrField::Service => assert(new_pairs(m, f, context_id) =~= opt_pair(m.service, context_id)),
                    StrField::ServiceLower => assert(new_pairs(m, f, context_id) =~= opt_lower_pair(m.service, context_id)),
                    StrField::Host => assert(new_pairs(m, f, context_id) =~= opt_pair(m.host, context_id)),
                    StrField::TraceId => assert(new_pairs(m, f, context_id) =~= opt_pair(m.trace_id, context_id)),
                }
                assert(pairs_of(self.vec_of(f)) =~= self@.field_pairs(f));
            }
            lemma_link_pairs_insert(old_model.metas, context_id, m, true);
            lemma_link_pairs_insert(old_model.metas, context_id, m, false);

        }
    }
}


proof fn lemma_created_member(heads: Set<(u64, u64, u32)>, id: u64, c: u64, d: u32)
    requires
        heads.contains((id, c, d)),
    ensures
        created_pairs(heads).contains((c, id)),
        depth_pairs(heads).contains((d as u64, id)),
{
    let p = (c, id);
    assert(heads.contains((p.1, p.0, d)));
    let q = (d as u64, id);
    assert(heads.contains((q.1, c, d)) && q.0 == d as u64);
}

proof fn lemma_heads_insert(heads: Set<(u64, u64, u32)>, id: u64, c: u64, d: u32)
    ensures
        created_pairs(heads.insert((id, c, d))) == created_pairs(heads).insert((c, id)),
        depth_pairs(heads.insert((id, c, d))) == depth_pairs(heads).insert((d as u64, id)),
{
    let h2 = heads.insert((id, c, d));
    assert forall|p: (u64, u64)| #[trigger] created_pairs(h2).contains(p) <==> created_pairs(heads).insert((c, id)).contains(p) by {
        if created_pairs(h2).contains(p) {
            let dd = choose|dd: u32| h2.contains((p.1, p.0, dd));
            if (p.1, p.0, dd) != (id, c, d) {
                assert(heads.contains((p.1, p.0, dd)));
            }
        }
        if created_pairs(heads).contains(p) {
            let dd = choose|dd: u32| heads.contains((p.1, p.0, dd));
            assert(h2.contains((p.1, p.0, dd)));
        }
        if p == (c, id) {
            assert(h2.contains((id, c, d)));
        }
    }
    assert(created_pairs(h2) =~= created_pairs(heads).insert((c, id)));
    assert forall|p: (u64, u64)| #[trigger] depth_pairs(h2).contains(p) <==> depth_pairs(heads).insert((d as u64, id)).contains(p) by {
        if depth_pairs(h2).contains(p) {
            let (cc, dd) = choose|cc: u64, dd: u32| h2.contains((p.1, cc, dd)) && p.0 == dd as u64;
            if (p.1, cc, dd) != (id, c, d) {
                assert(heads.contains((p.1, cc, dd)));
            }
        }
        if depth_pairs(heads).contains(p) {
            let (cc, dd) = choose|cc: u64, dd: u32| heads.contains((p.1, cc, dd)) && p.0 == dd as u64;
            assert(h2.contains((p.1, cc, dd)));
        }
        if p == (d as u64, id) {
            lemma_created_member(h2, id, c, d);
        }
    }
    assert(depth_pairs(h2) =~= depth_pairs(heads).insert((d as u64, id)));
}

/// Contexts paired with exactly `key` in a string index vector.
fn ids_exact(v: &Vec<(String, u64)>, key: &[char]) -> (r: HashSet<u64>)
    ensures
        r@ == Set::new(|id: u64| pairs_of(v@).contains((key@, id))),
{
    let mut r: HashSet<u64> = HashSet::new();
    let mut i: usize = 0;
    while i < v.len()
        invariant
            0 <= i <= v@.len(),
            r@ == Set::new(|id: u64| pairs_of(v@.take(i as int)).contains((key@, id))),
        decreases v@.len() - i,
    {
        let ks = chars_of(v[i].0.as_str());
        if chars_eq(ks.as_slice(), key) {
            r.insert(v[i].1);
        }
        proof {
            assert(v@.take(i + 1) =~= v@.take(i as int).push(v@[i as int]));
            lemma_pairs_push(v@.take(i as int), v@[i as int]);
        }
        assert(r@ =~= Set::new(|id: u64| pairs_of(v@.take(i + 1)).contains((key@, id))));
        i += 1;
    }
    assert(v@.take(v@.len() as int) =~= v@);
    r
}

/// Contexts paired with a key that starts with `prefix`.
fn ids_prefixed(v: &Vec<(String, u64)>, prefix: &[char]) -> (r: HashSet<u64>)
    ensures
        r@ == Set::new(|id: u64| exists|s: Seq<char>| pairs_of(v@).contains((s, id)) && has_prefix(s, prefix@)),
{
    let mut r: HashSet<u64> = HashSet::new();
    let mut i: usize = 0;
    while i < v.len()
        invariant
            0 <= i <= v@.len(),
            r@ == Set::new(|id: u64| exists|s: Seq<char>| pairs_of(v@.take(i as int)).contains((s, id)) && has_prefix(s, prefix@)),
        decreases v@.len() - i,
    {
        let ks = chars_of(v[i].0.as_str());
        let hit = chars_start_with(ks.as_slice(), prefix);
        if hit {
            r.insert(v[i].1);
        }
        proof {
            assert(v@.take(i + 1) =~= v@.take(i as int).push(v@[i as int]));
            lemma_pairs_push(v@.take(i as int), v@[i as int]);
            let ghost k = v@[i as int].0@;
            assert forall|id: u64| #[trigger] r@.contains(id) <==> (exists|s: Seq<char>| pairs_of(v@.take(i + 1)).contains((s, id)) && has_prefix(s, prefix@)) by {
                if exists|s: Seq<char>| pairs_of(v@.take(i + 1)).contains((s, id)) && has_prefix(s, prefix@) {
                    let s = choose|s: Seq<char>| pairs_of(v@.take(i + 1)).contains((s, id)) && has_prefix(s, prefix@);
                    if (s, id) != (k, v@[i as int].1) {
                        assert(pairs_of(v@.take(i as int)).contains((s, id)));
                    }
                }
                if hit && id == v@[i as int].1 {
                    assert(pairs_of(v@.take(i + 1)).contains((k, id)));
                }
                if exists|s: Seq<char>| pairs_of(v@.take(i as int)).contains((s, id)) && has_prefix(s, prefix@) {
                    let s = choose|s: Seq<char>| pairs_of(v@.take(i as int)).contains((s, id)) && has_prefix(s, prefix@);
                    assert(pairs_of(v@.take(i + 1)).contains((s, id)));
                }
            }
            assert(r@ =~= Set::new(|id: u64| exists|s: Seq<char>| pairs_of(v@.take(i + 1)).contains((s, id)) && has_prefix(s, prefix@)));
        }
        i += 1;
    }
    assert(v@.take(v@.len() as int) =~= v@);
    r
}

/// Contexts whose numeric key `k` satisfies `in_range(op, k, bound)`.
fn ids_in_range(v: &Vec<(u64, u64)>, op: RangeOp, bound: u64) -> (r: HashSet<u64>)
    ensures
        r@ == Set::new(|id: u64| exists|k: u64| v@.to_set().contains((k, id)) && in_range(op, k, bound)),
{
    let mut r: HashSet<u64> = HashSet::new();
    let mut i: usize = 0;
    while i < v.len()
        invariant
            0 <= i <= v@.len(),
            r@ == Set::new(|id: u64| exists|k: u64| v@.take(i as int).to_set().contains((k, id)) && in_range(op, k, bound)),
        decreases v@.len() - i,
    {
        let (k, id) = v[i];
        let hit = match op {
            RangeOp::Gt => k > bound,
            RangeOp::Gte => k >= bound,
            RangeOp::Lt => k < bound,
            RangeOp::Lte => k <= bound,
            RangeOp::Eq => k == bound,
        };
        let ghost r_before = r@;
        if hit {
            r.insert(id);
        }
        proof {
            assert(hit == in_range(op, k, bound));
            assert(v@.take(i + 1) =~= v@.take(i as int).push(v@[i as int]));
            lemma_to_set_push_pair(v@.take(i as int), v@[i as int]);
            assert(v@[i as int] == (k, id));
            assert forall|x: u64| #[trigger] r@.contains(x) <==> (exists|kk: u64| v@.take(i + 1).to_set().contains((kk, x)) && in_range(op, kk, bound)) by {
                if exists|kk: u64| v@.take(i + 1).to_set().contains((kk, x)) && in_range(op, kk, bound) {
                    let kk = choose|kk: u64| v@.take(i + 1).to_set().contains((kk, x)) && in_range(op, kk, bound);
                    if (kk, x) != (k, id) {
                        assert(v@.take(i as int).to_set().contains((kk, x)));
                    }
                }
                if hit && x == id {
                    assert(v@.take(i + 1).to_set().contains((k, x)));
                }
                if exists|kk: u64| v@.take(i as int).to_set().contains((kk, x)) && in_range(op, kk, bound) {
                    let kk = choose|kk: u64| v@.take(i as int).to_set().contains((kk, x)) && in_range(op, kk, bound);
                    assert(v@.take(i + 1).to_set().contains((kk, x)));
                }
            }
            assert(r@ =~= Set::new(|x: u64| exists|kk: u64| v@.take(i + 1).to_set().contains((kk, x)) && in_range(op, kk, bound)));
        }
        i += 1;
    }
    assert(v@.take(v@.len() as int) =~= v@);
    r
}

impl SecondaryIndexes {
    /// Records one context's creation time and head depth.
    fn record_head(&mut self, context_id: u64, created_at_unix_ms: u64, depth: u32)
        requires
            old(self).wf(),
        ensures
            final(self).wf(),
            final(self)@ == old(self)@.with_head(context_id, created_at_unix_ms, depth),
    {
        let ghost old_model = self@;
        self.all_context_ids.insert(context_id);
        let ghost cb = self.created@;
        let ghost db = self.depth@;
        self.created.push((created_at_unix_ms, context_id));
        self.depth.push((depth as u64, context_id));
        self.model = Ghost(old_model.with_head(context_id, created_at_unix_ms, depth));
        proof {
            lemma_to_set_push_pair(cb, (created_at_unix_ms, context_id));
            lemma_to_set_push_pair(db, (depth as u64, context_id));
            lemma_heads_insert(old_model.heads, context_id, created_at_unix_ms, depth);
            assert forall|f: StrField| #[trigger] pairs_of(self.vec_of(f)) == self@.field_pairs(f) by {
                assert(pairs_of(old(self).vec_of(f)) == old_model.field_pairs(f));
                assert(self.vec_of(f) == old(self).vec_of(f));
                assert(self@.field_pairs(f) =~= old_model.field_pairs(f));
            }
        }
    }

    /// Adds a new context: it is known from now on, its metadata (if any) is
    /// indexed, and its creation time and depth are recorded.
    pub fn add_context(
        &mut self,
        context_id: u64,
        metadata: Option<&ContextMetadata>,
        created_at_unix_ms: u64,
        depth: u32,
    )
        requires
            old(self).wf(),
        ensures
            final(self).wf(),
            final(self)@ == match metadata {
                Some(m) => old(self)@.with_head(context_id, created_at_unix_ms, depth).with_meta(context_id, m@),
                None => old(self)@.with_head(context_id, created_at_unix_ms, depth),
            },
    {
        self.record_head(context_id, created_at_unix_ms, depth);
        if let Some(metadata) = metadata {
            self.index_metadata(context_id, metadata);
        }
    }

    /// Every context the indexes know.
    pub fn all_contexts(&self) -> (r: &HashSet<u64>)
        requires
            self.wf(),
        ensures
            r@ == self@.all,
    {
        &self.all_context_ids
    }

    fn exact_lookup(&self, f: StrField, key: &[char]) -> (r: HashSet<u64>)
        requires
            self.wf(),
        ensures
            r@ == self@.exact(f, key@),
    {
        let v = match f {
            StrField::Tag => &self.tag,
            StrField::TagLower => &self.tag_lower,
            StrField::Title => &self.title,
            StrField::TitleLower => &self.title_lower,
            StrField::Label => &self.label,
            StrField::User => &self.user,
            StrField::UserLower => &self.user_lower,
            StrField::Service => &self.service,
            StrField::ServiceLower => &self.service_lower,
            StrField::Host => &self.host,
            StrField::TraceId => &self.trace_id,
        };
        assert(v@ == self.vec_of(f));
        assert(pairs_of(self.vec_of(f)) == self@.field_pairs(f));
        let r = ids_exact(v, key);
        assert(r@ =~= self@.exact(f, key@));
        r
    }

    fn prefix_lookup(&self, f: StrField, prefix: &[char]) -> (r: HashSet<u64>)
        requires
            self.wf(),
        ensures
            r@ == self@.prefixed(f, prefix@),
    {
        let v = match f {
            StrField::Tag => &self.tag,
            StrField::TagLower => &self.tag_lower,
            StrField::Title => &self.title,
            StrField::TitleLower => &self.title_lower,
            StrField::Label => &self.label,
            StrField::User => &self.user,
            StrField::UserLower => &self.user_lower,
            StrField::Service => &self.service,
            StrField::ServiceLower => &self.service_lower,
            StrField::Host => &self.host,
            StrField::TraceId => &self.trace_id,
        };
        assert(v@ == self.vec_of(f));
        assert(pairs_of(self.vec_of(f)) == self@.field_pairs(f));
        let r = ids_prefixed(v, prefix);
        assert(r@ =~= self@.prefixed(f, prefix@));
        r
    }

    /// Contexts indexed under exactly `value` in index `f`.
    pub fn lookup_exact(&self, f: StrField, value: &str) -> (r: HashSet<u64>)
        requires
            self.wf(),
        ensures
            r@ == self@.exact(f, value@),
    {
        let key = chars_of(value);
        self.exact_lookup(f, key.as_slice())
    }

    /// Contexts indexed (in the lowercase index `f`) under the lowercase form of `value`.
    pub fn lookup_exact_ci(&self, f: StrField, value: &str) -> (r: HashSet<u64>)
        requires
            self.wf(),
        ensures
            r@ == self@.exact(f, lowercase(value@)),
    {
        let lower = to_lowercase(value);
        let key = chars_of(lower.as_str());
        self.exact_lookup(f, key.as_slice())
    }

    /// Contexts indexed in `f` under a key starting with `prefix`.
    pub fn prefix_search(&self, f: StrField, prefix: &str) -> (r: HashSet<u64>)
        requires
            self.wf(),
        ensures
            r@ == self@.prefixed(f, prefix@),
    {
        let key = chars_of(prefix);
        self.prefix_lookup(f, key.as_slice())
    }

    /// Contexts indexed in `f` under a key starting with the lowercase form of `prefix`.
    pub fn prefix_search_ci(&self, f: StrField, prefix: &str) -> (r: HashSet<u64>)
        requires
            self.wf(),
        ensures
            r@ == self@.prefixed(f, lowercase(prefix@)),
    {
        let lower = to_lowercase(prefix);
        let key = chars_of(lower.as_str());
        self.prefix_lookup(f, key.as_slice())
    }

    pub fn lookup_tag_exact(&self, value: &str) -> (r: HashSet<u64>)
        requires self.wf(),
        ensures r@ == self@.exact(StrField::Tag, value@),
    {
        self.lookup_exact(StrField::Tag, value)
    }

    pub fn lookup_tag_exact_ci(&self, value: &str) -> (r: HashSet<u64>)
        requires self.wf(),
        ensures r@ == self@.exact(StrField::TagLower, lowercase(value@)),
    {
        self.lookup_exact_ci(StrField::TagLower, value)
    }

    pub fn lookup_title_exact(&self, value: &str) -> (r: HashSet<u64>)
        requires self.wf(),
        ensures r@ == self@.exact(StrField::Title, value@),
    {
        self.lookup_exact(StrField::Title, value)
    }

    pub fn lookup_title_exact_ci(&self, value: &str) -> (r: HashSet<u64>)
        requires self.wf(),
        ensures r@ == self@.exact(StrField::TitleLower, lowercase(value@)),
    {
        self.lookup_exact_ci(StrField::TitleLower, value)
    }

    pub fn lookup_label_exact(&self, value: &str) -> (r: HashSet<u64>)
        requires self.wf(),
        ensures r@ == self@.exact(StrField::Label, value@),
    {
        self.lookup_exact(StrField::Label, value)
    }

    pub fn lookup_user_exact(&self, value: &str) -> (r: HashSet<u64>)
        requires self.wf(),
        ensures r@ == self@.exact(StrField::User, value@),
    {
        self.lookup_exact(StrField::User, value)
    }

    pub fn lookup_user_exact_ci(&self, value: &str) -> (r: HashSet<u64>)
        requires self.wf(),
        ensures r@ == self@.exact(StrField::UserLower, lowercase(value@)),
    {
        self.lookup_exact_ci(StrField::UserLower, value)
    }

    pub fn lookup_service_exact(&self, value: &str) -> (r: HashSet<u64>)
        requires self.wf(),
        ensures r@ == self@.exact(StrField::Service, value@),
    {
        self.lookup_exact(StrField::Service, value)
    }

    pub fn lookup_service_exact_ci(&self, value: &str) -> (r: HashSet<u64>)
        requires self.wf(),
        ensures r@ == self@.exact(StrField::ServiceLower, lowercase(value@)),
    {
        self.lookup_exact_ci(StrField::ServiceLower, value)
    }

    pub fn lookup_host_exact(&self, value: &str) -> (r: HashSet<u64>)
        requires self.wf(),
        ensures r@ == self@.exact(StrField::Host, value@),
    {
        self.lookup_exact(StrField::Host, value)
    }

    pub fn lookup_trace_id_exact(&self, value: &str) -> (r: HashSet<u64>)
        requires self.wf(),
        ensures r@ == self@.exact(StrField::TraceId, value@),
    {
        self.lookup_exact(StrField::TraceId, value)
    }

    pub fn lookup_tag_prefix(&self, prefix: &str) -> (r: HashSet<u64>)
        requires self.wf(),
        ensures r@ == self@.prefixed(StrField::Tag, prefix@),
    {
        self.prefix_search(StrField::Tag, prefix)
    }

    pub fn lookup_tag_prefix_ci(&self, prefix: &str) -> (r: HashSet<u64>)
        requires self.wf(),
        ensures r@ == self@.prefixed(StrField::TagLower, lowercase(prefix@)),
    {
        self.prefix_search_ci(StrField::TagLower, prefix)
    }

    pub fn lookup_title_prefix(&self, prefix: &str) -> (r: HashSet<u64>)
        requires self.wf(),
        ensures r@ == self@.prefixed(StrField::Title, prefix@),
    {
        self.prefix_search(StrField::Title, prefix)
    }

    pub fn lookup_title_prefix_ci(&self, prefix: &str) -> (r: HashSet<u64>)
        requires self.wf(),
        ensures r@ == self@.prefixed(StrField::TitleLower, lowercase(prefix@)),
    {
        self.prefix_search_ci(StrField::TitleLower, prefix)
    }

    pub fn lookup_user_prefix(&self, prefix: &str) -> (r: HashSet<u64>)
        requires self.wf(),
        ensures r@ == self@.prefixed(StrField::User, prefix@),
    {
        self.prefix_search(StrField::User, prefix)
    }

    pub fn lookup_user_prefix_ci(&self, prefix: &str) -> (r: HashSet<u64>)
        requires self.wf(),
        ensures r@ == self@.prefixed(StrField::UserLower, lowercase(prefix@)),
    {
        self.prefix_search_ci(StrField::UserLower, prefix)
    }

    pub fn lookup_service_prefix(&self, prefix: &str) -> (r: HashSet<u64>)
        requires self.wf(),
        ensures r@ == self@.prefixed(StrField::Service, prefix@),
    {
        self.prefix_search(StrField::Service, prefix)
    }

    pub fn lookup_service_prefix_ci(&self, prefix: &str) -> (r: HashSet<u64>)
        requires self.wf(),
        ensures r@ == self@.prefixed(StrField::ServiceLower, lowercase(prefix@)),
    {
        self.prefix_search_ci(StrField::ServiceLower, prefix)
    }

    pub fn lookup_host_prefix(&self, prefix: &str) -> (r: HashSet<u64>)
        requires self.wf(),
        ensures r@ == self@.prefixed(StrField::Host, prefix@),
    {
        self.prefix_search(StrField::Host, prefix)
    }

    /// Contexts whose provenance names `value` as parent (`parent`) or as root.
    pub fn lookup_linked(&self, parent: bool, value: u64) -> (r: HashSet<u64>)
        requires self.wf(),
        ensures r@ == self@.linked(parent, value),
    {
        if parent {
            self.lookup_parent_exact(value)
        } else {
            self.lookup_root_exact(value)
        }
    }

    /// Contexts whose provenance names `value` as parent.
    pub fn lookup_parent_exact(&self, value: u64) -> (r: HashSet<u64>)
        requires self.wf(),
        ensures r@ == self@.linked(true, value),
    {
        let r = ids_in_range(&self.parent, RangeOp::Eq, value);
        assert forall|id: u64| #[trigger] r@.contains(id) <==> self@.linked(true, value).contains(id) by {
            if self@.linked(true, value).contains(id) {
                assert(self.parent@.to_set().contains((value, id)) && in_range(RangeOp::Eq, value, value));
            }
        }
        assert(r@ =~= self@.linked(true, value));
        r
    }

    /// Contexts whose provenance names `value` as root.
    pub fn lookup_root_exact(&self, value: u64) -> (r: HashSet<u64>)
        requires self.wf(),
        ensures r@ == self@.linked(false, value),
    {
        let r = ids_in_range(&self.root, RangeOp::Eq, value);
        assert forall|id: u64| #[trigger] r@.contains(id) <==> self@.linked(false, value).contains(id) by {
            if self@.linked(false, value).contains(id) {
                assert(self.root@.to_set().contains((value, id)) && in_range(RangeOp::Eq, value, value));
            }
        }
        assert(r@ =~= self@.linked(false, value));
        r
    }

    /// Contexts whose creation time `c` satisfies `in_range(op, c, timestamp)`.
    pub fn lookup_created(&self, op: RangeOp, timestamp: u64) -> (r: HashSet<u64>)
        requires self.wf(),
        ensures r@ == self@.created_in(op, timestamp),
    {
        let r = ids_in_range(&self.created, op, timestamp);
        assert forall|id: u64| #[trigger] r@.contains(id) <==> self@.created_in(op, timestamp).contains(id) by {
            if r@.contains(id) {
                let k = choose|k: u64| self.created@.to_set().contains((k, id)) && in_range(op, k, timestamp);
                assert(created_pairs(self@.heads).contains((k, id)));
                let d = choose|d: u32| self@.heads.contains((id, k, d));
                assert(self@.heads.contains((id, k, d)) && in_range(op, k, timestamp));
            }
            if self@.created_in(op, timestamp).contains(id) {
                let (c, d) = choose|c: u64, d: u32| self@.heads.contains((id, c, d)) && in_range(op, c, timestamp);
                lemma_created_member(self@.heads, id, c, d);
                assert(self.created@.to_set().contains((c, id)) && in_range(op, c, timestamp));
            }
        }
        assert(r@ =~= self@.created_in(op, timestamp));
        r
    }

    /// Contexts whose head depth `d` satisfies `in_range(op, d, depth)`.
    pub fn lookup_depth(&self, op: RangeOp, depth: u32) -> (r: HashSet<u64>)
        requires self.wf(),
        ensures r@ == self@.depth_in(op, depth),
    {
        let r = ids_in_range(&self.depth, op, depth as u64);
        assert forall|id: u64| #[trigger] r@.contains(id) <==> self@.depth_in(op, depth).contains(id) by {
            if r@.contains(id) {
                let k = choose|k: u64| self.depth@.to_set().contains((k, id)) && in_range(op, k, depth as u64);
                assert(depth_pairs(self@.heads).contains((k, id)));
                let (c, d) = choose|c: u64, d: u32| self@.heads.contains((id, c, d)) && k == d as u64;
                assert(self@.heads.contains((id, c, d)) && in_range(op, d as u64, depth as u64));
            }
            if self@.depth_in(op, depth).contains(id) {
                let (c, d) = choose|c: u64, d: u32| self@.heads.contains((id, c, d)) && in_range(op, d as u64, depth as u64);
                lemma_created_member(self@.heads, id, c, d);
                assert(self.depth@.to_set().contains((d as u64, id)) && in_range(op, d as u64, depth as u64));
            }
        }
        assert(r@ =~= self@.depth_in(op, depth));
        r
    }

    pub fn lookup_created_gt(&self, timestamp: u64) -> (r: HashSet<u64>)
        requires self.wf(),
        ensures r@ == self@.created_in(RangeOp::Gt, timestamp),
    {
        self.lookup_created(RangeOp::Gt, timestamp)
    }

    pub fn lookup_created_gte(&self, timestamp: u64) -> (r: HashSet<u64>)
        requires self.wf(),
        ensures r@ == self@.created_in(RangeOp::Gte, timestamp),
    {
        self.lookup_created(RangeOp::Gte, timestamp)
    }

    pub fn lookup_created_lt(&self, timestamp: u64) -> (r: HashSet<u64>)
        requires self.wf(),
        ensures r@ == self@.created_in(RangeOp::Lt, timestamp),
    {
        self.lookup_created(RangeOp::Lt, timestamp)
    }

    pub fn lookup_created_lte(&self, timestamp: u64) -> (r: HashSet<u64>)
        requires self.wf(),
        ensures r@ == self@.created_in(RangeOp::Lte, timestamp),
    {
        self.lookup_created(RangeOp::Lte, timestamp)
    }

    pub fn lookup_created_eq(&self, timestamp: u64) -> (r: HashSet<u64>)
        requires self.wf(),
        ensures r@ == self@.created_in(RangeOp::Eq, timestamp),
    {
        self.lookup_created(RangeOp::Eq, timestamp)
    }

    pub fn lookup_depth_gt(&self, depth: u32) -> (r: HashSet<u64>)
        requires self.wf(),
        ensures r@ == self@.depth_in(RangeOp::Gt, depth),
    {
        self.lookup_depth(RangeOp::Gt, depth)
    }

    pub fn lookup_depth_gte(&self, depth: u32) -> (r: HashSet<u64>)
        requires self.wf(),
        ensures r@ == self@.depth_in(RangeOp::Gte, depth),
    {
        self.lookup_depth(RangeOp::Gte, depth)
    }

    pub fn lookup_depth_lt(&self, depth: u32) -> (r: HashSet<u64>)
        requires self.wf(),
        ensures r@ == self@.depth_in(RangeOp::Lt, depth),
    {
        self.lookup_depth(RangeOp::Lt, depth)
    }

    pub fn lookup_depth_lte(&self, depth: u32) -> (r: HashSet<u64>)
        requires self.wf(),
        ensures r@ == self@.depth_in(RangeOp::Lte, depth),
    {
        self.lookup_depth(RangeOp::Lte, depth)
    }

    pub fn lookup_depth_eq(&self, depth: u32) -> (r: HashSet<u64>)
        requires self.wf(),
        ensures r@ == self@.depth_in(RangeOp::Eq, depth),
    {
        self.lookup_depth(RangeOp::Eq, depth)
    }
}


/// (context, metadata) for each context of a metadata cache that has metadata.
pub open spec fn cache_metas(cache: Map<u64, Option<ContextMetadata>>) -> Set<(u64, MetaView)> {
    Set::new(|p: (u64, MetaView)| cache.contains_key(p.0) && (cache[p.0] matches Some(m) && m@ == p.1))
}

/// (context, creation time, depth) of each head.
pub open spec fn head_triples(hs: Seq<ContextHead>) -> Set<(u64, u64, u32)> {
    hs.map_values(|h: ContextHead| (h.context_id, h.created_at_unix_ms, h.head_depth)).to_set()
}

/// The contexts of some heads.
pub open spec fn head_ids(hs: Seq<ContextHead>) -> Set<u64> {
    hs.map_values(|h: ContextHead| h.context_id).to_set()
}

/// The model after indexing a metadata cache and a list of heads.
pub open spec fn built_model(
    m: IndexModel,
    cache: Map<u64, Option<ContextMetadata>>,
    hs: Seq<ContextHead>,
) -> IndexModel {
    IndexModel {
        all: m.all.union(cache.dom()).union(head_ids(hs)),
        metas: m.metas.union(cache_metas(cache)),
        heads: m.heads.union(head_triples(hs)),
    }
}

pub open spec fn keys_seen(s: Seq<(&u64, &Option<ContextMetadata>)>) -> Set<u64> {
    s.map_values(|e: (&u64, &Option<ContextMetadata>)| *e.0).to_set()
}

proof fn lemma_seq_to_set_push<T>(s: Seq<T>, x: T)
    ensures
        s.push(x).to_set() == s.to_set().insert(x),
{
    assert forall|y: T| #[trigger] s.push(x).to_set().contains(y) <==> s.to_set().insert(x).contains(y) by {
        if y == x {
            assert(s.push(x)[s.len() as int] == x);
        } else if s.push(x).contains(y) {
            let i = choose|i: int| 0 <= i < s.push(x).len() && s.push(x)[i] == y;
            assert(s[i] == y);
        } else if s.contains(y) {
            let i = choose|i: int| 0 <= i < s.len() && s[i] == y;
            assert(s.push(x)[i] == y);
        }
    }
    assert(s.push(x).to_set() =~= s.to_set().insert(x));
}

proof fn lemma_keys_cover(cache: Map<u64, Option<ContextMetadata>>, s: Seq<(&u64, &Option<ContextMetadata>)>)
    requires
        forall|i: int| 0 <= i < s.len() ==> #[trigger] cache.contains_key(*s[i].0) && cache[*s[i].0] == *s[i].1,
        forall|k: u64| #[trigger] cache.contains_key(k) ==> s.contains((&k, &cache[k])),
    ensures
        keys_seen(s) == cache.dom(),
{
    let ks = s.map_values(|e: (&u64, &Option<ContextMetadata>)| *e.0);
    assert forall|k: u64| #[trigger] keys_seen(s).contains(k) <==> cache.dom().contains(k) by {
        if keys_seen(s).contains(k) {
            let i = choose|i: int| 0 <= i < ks.len() && ks[i] == k;
            assert(cache.contains_key(*s[i].0));
        }
        if cache.contains_key(k) {
            let i = choose|i: int| 0 <= i < s.len() && s[i] == (&k, &cache[k]);
            assert(ks[i] == k);
        }
    }
    assert(keys_seen(s) =~= cache.dom());
}

impl SecondaryIndexes {
    /// Indexes every context of a metadata cache (metadata where there is
    /// some) and records the creation time and depth of every head.
    pub fn build_from_cache(
        &mut self,
        metadata_cache: &std::collections::HashMap<u64, Option<ContextMetadata>>,
        heads: &[ContextHead],
    )
        requires
            old(self).wf(),
        ensures
            final(self).wf(),
            final(self)@ == built_model(old(self)@, metadata_cache@, heads@),
    {
        let ghost m0 = self@;
        for e in it: metadata_cache.iter()
            invariant
                self.wf(),
                self@.all == m0.all.union(keys_seen(it.seq().take(it.index() as int))),
                self@.metas == m0.metas.union(
                    Set::new(|p: (u64, MetaView)| keys_seen(it.seq().take(it.index() as int)).contains(p.0)
                        && (metadata_cache@[p.0] matches Some(m) && m@ == p.1)),
                ),
                self@.heads == m0.heads,
                it.seq().take(it.seq().len() as int) == it.seq(),
                forall|i: int| 0 <= i < it.seq().len() ==> #[trigger] metadata_cache@.contains_key(*it.seq()[i].0)
                    && metadata_cache@[*it.seq()[i].0] == *it.seq()[i].1,
                forall|k: u64| #[trigger] metadata_cache@.contains_key(k) ==> it.seq().contains((&k, &metadata_cache@[k])),
                it.index() == it.seq().len() ==> self@.all == m0.all.union(metadata_cache@.dom())
                    && self@.metas == m0.metas.union(cache_metas(metadata_cache@)),
        {
            let (id_ref, meta_opt) = e;
            let id = *id_ref;
            let ghost before = it.seq().take(it.index() as int);
            let ghost m_before = self@;
            assert(it.seq().take(it.index() + 1) =~= before.push(e));
            assert(it.seq()[it.index() as int] == e);
            proof {
                lemma_seq_to_set_push(before.map_values(|e: (&u64, &Option<ContextMetadata>)| *e.0), id);
                assert(before.push(e).map_values(|e: (&u64, &Option<ContextMetadata>)| *e.0) =~= before.map_values(|e: (&u64, &Option<ContextMetadata>)| *e.0).push(id));
            }
            let ghost keys_after = keys_seen(before).insert(id);
            assert(keys_seen(it.seq().take(it.index() + 1)) == keys_after);
            self.note_context(id);
            match meta_opt {
                Some(meta) => {
                    self.index_metadata(id, meta);
                },
                None => {},
            }
            assert(self@.metas =~= m0.metas.union(
                Set::new(|p: (u64, MetaView)| keys_after.contains(p.0)
                    && (metadata_cache@[p.0] matches Some(m) && m@ == p.1)),
            ));
            assert(keys_seen(it.seq()) == metadata_cache@.dom()) by {
                lemma_keys_cover(metadata_cache@, it.seq());
            }
            assert(it.index() + 1 == it.seq().len() ==> it.seq().take(it.index() + 1) == it.seq());
            assert(it.index() + 1 == it.seq().len() ==> self@.all =~= m0.all.union(metadata_cache@.dom()));
            assert(it.index() + 1 == it.seq().len() ==> self@.metas =~= m0.metas.union(cache_metas(metadata_cache@)));
        }
        let ghost m1 = self@;
        let mut i: usize = 0;
        while i < heads.len()
            invariant
                0 <= i <= heads@.len(),
                self.wf(),
                m1.all == m0.all.union(metadata_cache@.dom()),
                m1.metas == m0.metas.union(cache_metas(metadata_cache@)),
                self@.all == m1.all.union(head_ids(heads@.take(i as int))),
                self@.metas == m1.metas,
                self@.heads == m1.heads.union(head_triples(heads@.take(i as int))),
            decreases heads@.len() - i,
        {
            let h = heads[i];
            let ghost before = heads@.take(i as int);
            self.record_head(h.context_id, h.created_at_unix_ms, h.head_depth);
            proof {
                assert(heads@.take(i + 1) =~= before.push(h));
                assert(before.push(h).map_values(|h: ContextHead| h.context_id) =~= before.map_values(|h: ContextHead| h.context_id).push(h.context_id));
                assert(before.push(h).map_values(|h: ContextHead| (h.context_id, h.created_at_unix_ms, h.head_depth)) =~= before.map_values(|h: ContextHead| (h.context_id, h.created_at_unix_ms, h.head_depth)).push((h.context_id, h.created_at_unix_ms, h.head_depth)));
                lemma_seq_to_set_push(before.map_values(|h: ContextHead| h.context_id), h.context_id);
                lemma_seq_to_set_push(before.map_values(|h: ContextHead| (h.context_id, h.created_at_unix_ms, h.head_depth)), (h.context_id, h.created_at_unix_ms, h.head_depth));
                assert(self@.all =~= m1.all.union(head_ids(heads@.take(i + 1))));
                assert(self@.heads =~= m1.heads.union(head_triples(heads@.take(i + 1))));
            }
            i += 1;
        }
        assert(heads@.take(heads@.len() as int) =~= heads@);
    }

    /// Makes a context known.
    fn note_context(&mut self, id: u64)
        requires
            old(self).wf(),
        ensures
            final(self).wf(),
            final(self)@ == (IndexModel { all: old(self)@.all.insert(id), ..old(self)@ }),
    {
        let ghost m = self@;
        self.all_context_ids.insert(id);
        self.model = Ghost(IndexModel { all: m.all.insert(id), ..m });
        assert forall|f: StrField| #[trigger] pairs_of(self.vec_of(f)) == self@.field_pairs(f) by {
            assert(pairs_of(old(self).vec_of(f)) == m.field_pairs(f));
            assert(self.vec_of(f) == old(self).vec_of(f));
            assert(self@.field_pairs(f) =~= m.field_pairs(f));
        }
    }
}


/// The distinct keys of a set of (key, context) pairs.
pub open spec fn keys_of<K>(pairs: Set<(K, u64)>) -> Set<K> {
    Set::new(|k: K| exists|id: u64| pairs.contains((k, id)))
}

impl IndexModel {
    /// The distinct keys of a string index.
    pub open spec fn field_keys(self, f: StrField) -> Set<Seq<char>> {
        keys_of(self.field_pairs(f))
    }

    /// The distinct creation times of the recorded heads.
    pub open spec fn created_keys(self) -> Set<u64> {
        keys_of(created_pairs(self.heads))
    }
}

/// The number of distinct keys among the pairs of a string index vector.
fn count_distinct_strings(v: &Vec<(String, u64)>) -> (n: usize)
    ensures
        n == keys_of(pairs_of(v@)).len(),
{
    let mut seen: Vec<String> = Vec::new();
    let mut i: usize = 0;
    while i < v.len()
        invariant
            0 <= i <= v@.len(),
            seen@.len() <= i,
            seen@.map_values(|s: String| s@).no_duplicates(),
            seen@.map_values(|s: String| s@).to_set() == keys_of(pairs_of(v@.take(i as int))),
        decreases v@.len() - i,
    {
        let ghost sv = seen@.map_values(|s: String| s@);
        let key = &v[i].0;
        let mut found = false;
        let mut j: usize = 0;
        while j < seen.len()
            invariant
                0 <= j <= seen@.len(),
                sv == seen@.map_values(|s: String| s@),
                found <==> exists|k: int| 0 <= k < j && sv[k] == key@,
            decreases seen@.len() - j,
        {
            assert(sv[j as int] == seen@[j as int]@);
            if str_eq(seen[j].as_str(), key.as_str()) {
                found = true;
            }
            j += 1;
        }
        proof {
            assert(v@.take(i + 1) =~= v@.take(i as int).push(v@[i as int]));
            lemma_pairs_push(v@.take(i as int), v@[i as int]);
            assert(keys_of(pairs_of(v@.take(i + 1))) =~= keys_of(pairs_of(v@.take(i as int))).insert(key@)) by {
                assert forall|k: Seq<char>| #[trigger] keys_of(pairs_of(v@.take(i + 1))).contains(k) implies
                    keys_of(pairs_of(v@.take(i as int))).insert(key@).contains(k) by {
                    let id = choose|id: u64| #[trigger] pairs_of(v@.take(i + 1)).contains((k, id));
                    if k != key@ {
                        assert(pairs_of(v@.take(i as int)).contains((k, id)));
                    }
                }
                assert forall|k: Seq<char>| #[trigger] keys_of(pairs_of(v@.take(i as int))).insert(key@).contains(k) implies
                    keys_of(pairs_of(v@.take(i + 1))).contains(k) by {
                    if k == key@ {
                        assert(pairs_of(v@.take(i + 1)).contains((key@, v@[i as int].1)));
                    } else {
                        let id = choose|id: u64| #[trigger] pairs_of(v@.take(i as int)).contains((k, id));
                        assert(pairs_of(v@.take(i + 1)).contains((k, id)));
                    }
                }
            }
        }
        if !found {
            let c = key.clone();
            let ghost cv = c@;
            seen.push(c);
            proof {
                assert(seen@.map_values(|s: String| s@) =~= sv.push(cv));
                lemma_seq_to_set_push(sv, cv);
                assert forall|a: int, b: int| 0 <= a < b < sv.push(cv).len() implies
                    #[trigger] sv.push(cv)[a] != #[trigger] sv.push(cv)[b] by {
                    if b == sv.len() {
                        assert(sv[a] != key@);
                    }
                }
            }
        } else {
            proof {
                let k = choose|k: int| 0 <= k < j && sv[k] == key@;
                assert(sv.to_set().contains(key@));
                assert(sv.to_set().insert(key@) =~= sv.to_set());
            }
        }
        i += 1;
    }
    proof {
        assert(v@.take(v@.len() as int) =~= v@);
        seen@.map_values(|s: String| s@).unique_seq_to_set();
    }
    seen.len()
}

/// The number of distinct keys among the pairs of a numeric index vector.
fn count_distinct_numbers(v: &Vec<(u64, u64)>) -> (n: usize)
    ensures
        n == keys_of(v@.to_set()).len(),
{
    let mut seen: Vec<u64> = Vec::new();
    let mut i: usize = 0;
    while i < v.len()
        invariant
            0 <= i <= v@.len(),
            seen@.len() <= i,
            seen@.no_duplicates(),
            seen@.to_set() == keys_of(v@.take(i as int).to_set()),
        decreases v@.len() - i,
    {
        let key = v[i].0;
        let mut found = false;
        let mut j: usize = 0;
        while j < seen.len()
            invariant
                0 <= j <= seen@.len(),
                found <==> exists|k: int| 0 <= k < j && seen@[k] == key,
            decreases seen@.len() - j,
        {
            if seen[j] == key {
                found = true;
            }
            j += 1;
        }
        proof {
            assert(v@.take(i + 1) =~= v@.take(i as int).push(v@[i as int]));
            lemma_seq_to_set_push(v@.take(i as int), v@[i as int]);
            assert(keys_of(v@.take(i + 1).to_set()) =~= keys_of(v@.take(i as int).to_set()).insert(key)) by {
                assert forall|k: u64| #[trigger] keys_of(v@.take(i + 1).to_set()).contains(k) implies
                    keys_of(v@.take(i as int).to_set()).insert(key).contains(k) by {
                    let id = choose|id: u64| #[trigger] v@.take(i + 1).to_set().contains((k, id));
                    if k != key {
                        assert(v@.take(i as int).to_set().contains((k, id)));
                    }
                }
                assert forall|k: u64| #[trigger] keys_of(v@.take(i as int).to_set()).insert(key).contains(k) implies
                    keys_of(v@.take(i + 1).to_set()).contains(k) by {
                    if k == key {
                        assert(v@.take(i + 1).to_set().contains((key, v@[i as int].1)));
                    } else {
                        let id = choose|id: u64| #[trigger] v@.take(i as int).to_set().contains((k, id));
                        assert(v@.take(i + 1).to_set().contains((k, id)));
                    }
                }
            }
        }
        if !found {
            let ghost before = seen@;
            seen.push(key);
            proof {
                lemma_seq_to_set_push(before, key);
                assert forall|a: int, b: int| 0 <= a < b < seen@.len() implies
                    #[trigger] seen@[a] != #[trigger] seen@[b] by {
                    if b == before.len() {
                        assert(before[a] != key);
                    }
                }
            }
        } else {
            proof {
                let k = choose|k: int| 0 <= k < j && seen@[k] == key;
                assert(seen@.to_set().contains(key));
                assert(seen@.to_set().insert(key) =~= seen@.to_set());
            }
        }
        i += 1;
    }
    proof {
        assert(v@.take(v@.len() as int) =~= v@);
        seen@.unique_seq_to_set();
    }
    seen.len()
}

impl SecondaryIndexes {
    /// Counts of the contexts and of the distinct keys of some indexes.
    pub fn stats(&self) -> (r: IndexStats)
        requires
            self.wf(),
        ensures
            r.contexts_indexed == self@.all.len(),
            r.tag_entries == self@.field_keys(StrField::Tag).len(),
            r.title_entries == self@.field_keys(StrField::Title).len(),
            r.user_entries == self@.field_keys(StrField::User).len(),
            r.service_entries == self@.field_keys(StrField::Service).len(),
            r.host_entries == self@.field_keys(StrField::Host).len(),
            r.created_entries == self@.created_keys().len(),
    {
        assert(pairs_of(self.vec_of(StrField::Tag)) == self@.field_pairs(StrField::Tag));
        assert(pairs_of(self.vec_of(StrField::Title)) == self@.field_pairs(StrField::Title));
        assert(pairs_of(self.vec_of(StrField::User)) == self@.field_pairs(StrField::User));
        assert(pairs_of(self.vec_of(StrField::Service)) == self@.field_pairs(StrField::Service));
        assert(pairs_of(self.vec_of(StrField::Host)) == self@.field_pairs(StrField::Host));
        IndexStats {
            contexts_indexed: self.all_context_ids.len(),
            tag_entries: count_distinct_strings(&self.tag),
            title_entries: count_distinct_strings(&self.title),
            user_entries: count_distinct_strings(&self.user),
            service_entries: count_distinct_strings(&self.service),
            host_entries: count_distinct_strings(&self.host),
            created_entries: count_distinct_numbers(&self.created),
        }
    }
}


/// Indexing a context's metadata or head only adds: every lookup of the
/// model before is contained in the same lookup after.
pub proof fn law_indexing_only_adds(
    m: IndexModel,
    id: u64,
    meta: MetaView,
    created: u64,
    depth: u32,
    f: StrField,
    v: Seq<char>,
    parent: bool,
    k: u64,
    op: RangeOp,
    t: u64,
    d: u32,
)
    ensures
        m.exact(f, v).subset_of(m.with_meta(id, meta).exact(f, v)),
        m.prefixed(f, v).subset_of(m.with_meta(id, meta).prefixed(f, v)),
        m.linked(parent, k).subset_of(m.with_meta(id, meta).linked(parent, k)),
        m.with_meta(id, meta).all == m.all,
        m.with_head(id, created, depth).all == m.all.insert(id),
        m.created_in(op, t).subset_of(m.with_head(id, created, depth).created_in(op, t)),
        m.depth_in(op, d).subset_of(m.with_head(id, created, depth).depth_in(op, d)),
        m.with_head(id, created, depth).exact(f, v) == m.exact(f, v),
        m.with_head(id, created, depth).prefixed(f, v) == m.prefixed(f, v),
{
    let mm = m.with_meta(id, meta);
    assert forall|x: u64| m.exact(f, v).contains(x) implies mm.exact(f, v).contains(x) by {
        let w = choose|w: MetaView| m.metas.contains((x, w)) && has_str(w, f, v);
        assert(mm.metas.contains((x, w)));
        assert(mm.field_pairs(f).contains((v, x)));
    }
    assert forall|x: u64| m.prefixed(f, v).contains(x) implies mm.prefixed(f, v).contains(x) by {
        let s = choose|s: Seq<char>| m.field_pairs(f).contains((s, x)) && has_prefix(s, v);
        let w = choose|w: MetaView| m.metas.contains((x, w)) && has_str(w, f, s);
        assert(mm.metas.contains((x, w)));
        assert(mm.field_pairs(f).contains((s, x)));
    }
    assert forall|x: u64| m.linked(parent, k).contains(x) implies mm.linked(parent, k).contains(x) by {
        let w = choose|w: MetaView| m.metas.contains((x, w)) && link_of(w, parent) == Some(k);
        assert(mm.metas.contains((x, w)));
        assert(link_pairs(mm.metas, parent).contains((k, x)));
    }
    let mh = m.with_head(id, created, depth);
    assert forall|x: u64| m.created_in(op, t).contains(x) implies mh.created_in(op, t).contains(x) by {
        let (c, e) = choose|c: u64, e: u32| m.heads.contains((x, c, e)) && in_range(op, c, t);
        assert(mh.heads.contains((x, c, e)));
    }
    assert forall|x: u64| m.depth_in(op, d).contains(x) implies mh.depth_in(op, d).contains(x) by {
        let (c, e) = choose|c: u64, e: u32| m.heads.contains((x, c, e)) && in_range(op, e as u64, d as u64);
        assert(mh.heads.contains((x, c, e)));
    }
    assert(mh.field_pairs(f) =~= m.field_pairs(f));
    assert(mh.exact(f, v) =~= m.exact(f, v));
    assert(mh.prefixed(f, v) =~= m.prefixed(f, v));
    assert(mm.all =~= m.all);
}

/// A context indexed with metadata that gives a field the value `s` is
/// found under `s` and under every prefix of `s`.
pub proof fn law_indexed_is_found(m: IndexModel, id: u64, meta: MetaView, f: StrField, s: Seq<char>, n: int)
    requires
        has_str(meta, f, s),
        0 <= n <= s.len(),
    ensures
        m.with_meta(id, meta).exact(f, s).contains(id),
        m.with_meta(id, meta).prefixed(f, s.take(n)).contains(id),
{
    let mm = m.with_meta(id, meta);
    let pr: (Seq<char>, u64) = (s, id);
    assert(mm.metas.contains((pr.1, meta)) && has_str(meta, f, pr.0));
    assert(mm.field_pairs(f).contains(pr));
    assert(s.subrange(0, s.take(n).len() as int) =~= s.take(n));
    assert(has_prefix(s, s.take(n)));
}

/// An exact lookup finds no more than a prefix lookup with the same text,
/// and the empty prefix finds every context indexed under the field.
pub proof fn law_prefix_covers_exact(m: IndexModel, f: StrField, v: Seq<char>)
    ensures
        m.exact(f, v).subset_of(m.prefixed(f, v)),
        m.prefixed(f, Seq::empty()) == Set::new(|id: u64| exists|s: Seq<char>| m.field_pairs(f).contains((s, id))),
{
    assert forall|x: u64| m.exact(f, v).contains(x) implies m.prefixed(f, v).contains(x) by {
        assert(v.subrange(0, v.len() as int) =~= v);
        assert(has_prefix(v, v));
    }
    assert forall|x: u64| #[trigger] m.prefixed(f, Seq::empty()).contains(x) == (exists|s: Seq<char>| m.field_pairs(f).contains((s, x))) by {
        if exists|s: Seq<char>| m.field_pairs(f).contains((s, x)) {
            let s = choose|s: Seq<char>| m.field_pairs(f).contains((s, x));
            assert(s.subrange(0, 0) =~= Seq::<char>::empty());
            assert(has_prefix(s, Seq::empty()));
        }
    }
    assert(m.prefixed(f, Seq::empty()) =~= Set::new(|id: u64| exists|s: Seq<char>| m.field_pairs(f).contains((s, id))));
}


/// A case-insensitive prefix lookup with an ASCII prefix finds the same
/// contexts whatever the case of the prefix: the upper-cased prefix finds
/// what the prefix finds.  (The premises are what `str::to_lowercase` gives
/// on ASCII text, as [`crate::text::to_lowercase`] states.)
pub proof fn law_ci_prefix_ignores_case(m: IndexModel, f: StrField, p: Seq<char>)
    requires
        forall|i: int| 0 <= i < p.len() ==> is_ascii_char(#[trigger] p[i]),
        lowercase(p) == p.map_values(|c: char| ascii_lower_char(c)),
        lowercase(p.map_values(|c: char| ascii_upper_char(c))) == p.map_values(|c: char| ascii_upper_char(c)).map_values(
            |c: char| ascii_lower_char(c),
        ),
    ensures
        m.prefixed(f, lowercase(p)) == m.prefixed(f, lowercase(p.map_values(|c: char| ascii_upper_char(c)))),
{
    let up = p.map_values(|c: char| ascii_upper_char(c));
    assert(up.map_values(|c: char| ascii_lower_char(c)) =~= p.map_values(|c: char| ascii_lower_char(c))) by {
        assert forall|i: int| 0 <= i < p.len() implies #[trigger] ascii_lower_char(ascii_upper_char(p[i]))
            == ascii_lower_char(p[i]) by {
            let c = p[i];
            if 'a' <= c && c <= 'z' {
                assert(ascii_upper_char(c) == ((c as u32) - 32) as char);
            }
        }
    }
}


/// After a context's metadata is indexed, it is found under each of its
/// labels, its trace id and its host, and linked from its parent and its
/// root; nothing found before is lost.
pub proof fn law_metadata_is_found(m: IndexModel, id: u64, meta: MetaView)
    ensures
        meta.labels matches Some(ls) ==> forall|i: int|
            0 <= i < ls.len() ==> m.with_meta(id, meta).exact(StrField::Label, #[trigger] ls[i]).contains(id),
        meta.trace_id matches Some(t) ==> m.with_meta(id, meta).exact(StrField::TraceId, t).contains(id),
        meta.host matches Some(h) ==> m.with_meta(id, meta).exact(StrField::Host, h).contains(id),
        meta.parent matches Some(q) ==> m.with_meta(id, meta).linked(true, q).contains(id),
        meta.root matches Some(q) ==> m.with_meta(id, meta).linked(false, q).contains(id),
        m.metas.subset_of(m.with_meta(id, meta).metas),
{
    let mm = m.with_meta(id, meta);
    assert(mm.metas.contains((id, meta)));
    if let Some(ls) = meta.labels {
        assert forall|i: int| 0 <= i < ls.len() implies mm.exact(StrField::Label, #[trigger] ls[i]).contains(id) by {
            let pr: (Seq<char>, u64) = (ls[i], id);
            assert(ls.contains(ls[i]));
            assert(mm.metas.contains((pr.1, meta)) && has_str(meta, StrField::Label, pr.0));
            assert(mm.field_pairs(StrField::Label).contains(pr));
        }
    }
    if let Some(t) = meta.trace_id {
        let pr: (Seq<char>, u64) = (t, id);
        assert(mm.metas.contains((pr.1, meta)) && has_str(meta, StrField::TraceId, pr.0));
        assert(mm.field_pairs(StrField::TraceId).contains(pr));
    }
    if let Some(h) = meta.host {
        let pr: (Seq<char>, u64) = (h, id);
        assert(mm.metas.contains((pr.1, meta)) && has_str(meta, StrField::Host, pr.0));
        assert(mm.field_pairs(StrField::Host).contains(pr));
    }
    if let Some(q) = meta.parent {
        let pr: (u64, u64) = (q, id);
        assert(mm.metas.contains((pr.1, meta)) && link_of(meta, true) == Some(pr.0));
        assert(link_pairs(mm.metas, true).contains(pr));
    }
    if let Some(q) = meta.root {
        let pr: (u64, u64) = (q, id);
        assert(mm.metas.contains((pr.1, meta)) && link_of(meta, false) == Some(pr.0));
        assert(link_pairs(mm.metas, false).contains(pr));
    }
}

} // verus!
