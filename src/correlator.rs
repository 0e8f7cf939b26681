//! The request correlator: requests in flight, keyed by server and
//! JSON-RPC id, resolved by id alone when a response arrives.

use vstd::prelude::*;

verus! {

/// A JSON-RPC request id.
pub enum RequestId {
    Number(i64),
    Text(String),
}

/// A request id as a mathematical value.
pub enum IdView {
    Number(int),
    Text(Seq<char>),
}

impl View for RequestId {
    type V = IdView;

    open spec fn view(&self) -> IdView {
        match self {
            RequestId::Number(n) => IdView::Number(*n as int),
            RequestId::Text(s) => IdView::Text(s@),
        }
    }
}

impl RequestId {
    /// Whether two ids are the same id.
    pub fn same(&self, other: &RequestId) -> (r: bool)
        ensures
            r == (self@ == other@),
    {
        match (self, other) {
            (RequestId::Number(a), RequestId::Number(b)) => *a == *b,
            (RequestId::Text(a), RequestId::Text(b)) => *a == *b,
            _ => false,
        }
    }

    /// A copy of this id.
    pub fn duplicate(&self) -> (r: RequestId)
        ensures
            r@ == self@,
    {
        match self {
            RequestId::Number(n) => RequestId::Number(*n),
            RequestId::Text(s) => RequestId::Text(s.clone()),
        }
    }
}

/// A request in flight.
pub struct PendingRequest {
    pub server: String,
    pub id: RequestId,
    pub method: String,
    /// When it was sent, in milliseconds.
    pub issued_at: i64,
}

/// A request in flight, as a mathematical value.
pub struct PendingView {
    pub server: Seq<char>,
    pub id: IdView,
    pub method: Seq<char>,
    pub issued_at: int,
}

impl View for PendingRequest {
    type V = PendingView;

    open spec fn view(&self) -> PendingView {
        PendingView {
            server: self.server@,
            id: self.id@,
            method: self.method@,
            issued_at: self.issued_at as int,
        }
    }
}

/// The mathematical values of a sequence of requests.
pub open spec fn views_of(v: Seq<PendingRequest>) -> Seq<PendingView> {
    v.map_values(|p: PendingRequest| p@)
}

/// Whether `p` was sent to `server` under `id`.
pub open spec fn has_key(p: PendingView, server: Seq<char>, id: IdView) -> bool {
    p.server == server && p.id == id
}

/// No two requests in `s` share a server and an id.
pub open spec fn keys_unique(s: Seq<PendingView>) -> bool {
    forall|i: int, j: int|
        #![trigger s[i], s[j]]
        0 <= i < s.len() && 0 <= j < s.len() && i != j ==> !has_key(s[i], s[j].server, s[j].id)
}

/// The index of the last request in `s` sent to `server` under `id`.
pub open spec fn position(s: Seq<PendingView>, server: Seq<char>, id: IdView) -> Option<int>
    decreases s.len(),
{
    if s.len() == 0 {
        None
    } else if has_key(s.last(), server, id) {
        Some(s.len() - 1)
    } else {
        position(s.drop_last(), server, id)
    }
}

/// What resolving `(server, id)` does to the requests in flight `s`: the
/// matching request, if any, and the requests left.
pub open spec fn resolve_model(s: Seq<PendingView>, server: Seq<char>, id: IdView) -> (
    Option<PendingView>,
    Seq<PendingView>,
) {
    match position(s, server, id) {
        Some(i) => (Some(s[i]), s.remove(i)),
        None => (None, s),
    }
}

/// The outcome of a response arriving.
pub enum Resolution {
    /// It answers this request, now no longer in flight.
    Resolved(PendingRequest),
    /// No request in flight has its id.
    Unsolicited,
}

impl View for Resolution {
    type V = Option<PendingView>;

    open spec fn view(&self) -> Option<PendingView> {
        match self {
            Resolution::Resolved(p) => Some(p@),
            Resolution::Unsolicited => None,
        }
    }
}

/// Registering an id that is already in flight on that server.
#[derive(Clone, Copy, Debug, PartialEq, Eq, Structural)]
pub enum CorrelatorError {
    DuplicateId,
}

/// The requests in flight.
pub struct Correlator {
    entries: Vec<PendingRequest>,
}

impl View for Correlator {
    type V = Seq<PendingView>;

    closed spec fn view(&self) -> Seq<PendingView> {
        views_of(self.entries@)
    }
}

pub proof fn lemma_position(s: Seq<PendingView>, server: Seq<char>, id: IdView)
    ensures
        match position(s, server, id) {
            Some(i) => 0 <= i < s.len() && has_key(s[i], server, id),
            None => forall|j: int| 0 <= j < s.len() ==> !has_key(#[trigger] s[j], server, id),
        },
    decreases s.len(),
{
    if s.len() > 0 && !has_key(s.last(), server, id) {
        lemma_position(s.drop_last(), server, id);
        if position(s, server, id) is None {
            assert forall|j: int| 0 <= j < s.len() implies !has_key(#[trigger] s[j], server, id) by {
                if j < s.len() - 1 {
                    assert(s[j] == s.drop_last()[j]);
                }
            }
        }
    }
}

/// In a table with unique keys, the position of a key is the one index
/// that holds it.
pub proof fn lemma_position_unique(s: Seq<PendingView>, j: int)
    requires
        keys_unique(s),
        0 <= j < s.len(),
    ensures
        position(s, s[j].server, s[j].id) == Some(j),
{
    lemma_position(s, s[j].server, s[j].id);
}

/// Taking a request out of a table with unique keys leaves unique keys.
pub proof fn lemma_remove_keeps_unique(s: Seq<PendingView>, i: int)
    requires
        keys_unique(s),
        0 <= i < s.len(),
    ensures
        keys_unique(s.remove(i)),
{
    let t = s.remove(i);
    assert forall|a: int, b: int|
        #![trigger t[a], t[b]]
        0 <= a < t.len() && 0 <= b < t.len() && a != b implies !has_key(
        t[a],
        t[b].server,
        t[b].id,
    ) by {
        let a2 = if a < i { a } else { a + 1 };
        let b2 = if b < i { b } else { b + 1 };
        assert(t[a] == s[a2] && t[b] == s[b2]);
    }
}

proof fn lemma_absent_after_remove(s: Seq<PendingView>, i: int, server: Seq<char>, id: IdView)
    requires
        0 <= i < s.len(),
        position(s, server, id) is None,
    ensures
        position(s.remove(i), server, id) is None,
{
    lemma_position(s, server, id);
    lemma_position(s.remove(i), server, id);
    if let Some(j) = position(s.remove(i), server, id) {
        let j2 = if j < i { j } else { j + 1 };
        assert(s.remove(i)[j] == s[j2]);
    }
}

/// A response whose server and id match no request in flight resolves
/// nothing and leaves the table as it was.
pub proof fn lemma_unmatched_response_is_unsolicited(
    s: Seq<PendingView>,
    server: Seq<char>,
    id: IdView,
)
    requires
        forall|j: int| 0 <= j < s.len() ==> !has_key(#[trigger] s[j], server, id),
    ensures
        resolve_model(s, server, id) == (None::<PendingView>, s),
{
    lemma_position(s, server, id);
}

/// Every request in flight is what a response carrying its server and id
/// resolves, whatever else has been resolved before it: resolving two
/// different keys in either order gives each key the same request and
/// leaves the same table.
pub proof fn lemma_resolution_order_independent(
    s: Seq<PendingView>,
    server1: Seq<char>,
    id1: IdView,
    server2: Seq<char>,
    id2: IdView,
)
    requires
        keys_unique(s),
        !(server1 == server2 && id1 == id2),
    ensures
        ({
            let (a1, s1) = resolve_model(s, server1, id1);
            let (b2, s12) = resolve_model(s1, server2, id2);
            let (b1, s2) = resolve_model(s, server2, id2);
            let (a2, s21) = resolve_model(s2, server1, id1);
            a1 == a2 && b1 == b2 && s12 == s21
        }),
        forall|j: int|
            0 <= j < s.len() ==> (#[trigger] resolve_model(s, s[j].server, s[j].id)).0 == Some(
                s[j],
            ),
{
    lemma_position(s, server1, id1);
    lemma_position(s, server2, id2);
    assert forall|j: int| 0 <= j < s.len() implies (#[trigger] resolve_model(
        s,
        s[j].server,
        s[j].id,
    )).0 == Some(s[j]) by {
        lemma_position_unique(s, j);
    }
    match (position(s, server1, id1), position(s, server2, id2)) {
        (None, None) => {},
        (Some(i), None) => {
            lemma_absent_after_remove(s, i, server2, id2);
        },
        (None, Some(j)) => {
            lemma_absent_after_remove(s, j, server1, id1);
        },
        (Some(i), Some(j)) => {
            assert(i != j);
            lemma_remove_keeps_unique(s, i);
            lemma_remove_keeps_unique(s, j);
            let j1 = if j < i { j } else { j - 1 };
            let i1 = if i < j { i } else { i - 1 };
            assert(s.remove(i)[j1] == s[j]);
            assert(s.remove(j)[i1] == s[i]);
            lemma_position_unique(s.remove(i), j1);
            lemma_position_unique(s.remove(j), i1);
            assert(s.remove(i).remove(j1) =~= s.remove(j).remove(i1));
        },
    }
}

/// Resolving the keys `keys`, server and id, one after the other from the
/// table `s`: what each resolves, and the table left.
pub open spec fn resolve_all(s: Seq<PendingView>, keys: Seq<(Seq<char>, IdView)>) -> (
    Seq<Option<PendingView>>,
    Seq<PendingView>,
)
    decreases keys.len(),
{
    if keys.len() == 0 {
        (Seq::empty(), s)
    } else {
        let (found, rest) = resolve_model(s, keys[0].0, keys[0].1);
        let (later, last) = resolve_all(rest, keys.drop_first());
        (seq![found] + later, last)
    }
}

/// No key occurs twice in `keys`.
pub open spec fn keys_distinct(keys: Seq<(Seq<char>, IdView)>) -> bool {
    forall|i: int, j: int|
        #![trigger keys[i], keys[j]]
        0 <= i < keys.len() && 0 <= j < keys.len() && i != j ==> keys[i] != keys[j]
}

/// Responses are correlated by id alone: whatever the order in which
/// responses with distinct keys arrive, each resolves exactly the request
/// that was in flight under its key when they started to arrive, so any two
/// arrival orders of the same responses give each key the same request.
pub proof fn lemma_resolution_by_id_alone(s: Seq<PendingView>, keys: Seq<(Seq<char>, IdView)>)
    requires
        keys_unique(s),
        keys_distinct(keys),
    ensures
        resolve_all(s, keys).0.len() == keys.len(),
        forall|j: int|
            0 <= j < keys.len() ==> (#[trigger] resolve_all(s, keys).0[j]) == resolve_model(
                s,
                keys[j].0,
                keys[j].1,
            ).0,
    decreases keys.len(),
{
    if keys.len() > 0 {
        let k0 = keys[0];
        let (found, rest) = resolve_model(s, k0.0, k0.1);
        lemma_position(s, k0.0, k0.1);
        if let Some(i) = position(s, k0.0, k0.1) {
            lemma_remove_keeps_unique(s, i);
        }
        let tail = keys.drop_first();
        assert forall|i: int, j: int|
            #![trigger tail[i], tail[j]]
            0 <= i < tail.len() && 0 <= j < tail.len() && i != j implies tail[i] != tail[j] by {
            assert(tail[i] == keys[i + 1] && tail[j] == keys[j + 1]);
        }
        lemma_resolution_by_id_alone(rest, tail);
        let all = resolve_all(s, keys).0;
        assert forall|j: int| 0 <= j < keys.len() implies (#[trigger] all[j]) == resolve_model(
            s,
            keys[j].0,
            keys[j].1,
        ).0 by {
            if j > 0 {
                assert(tail[j - 1] == keys[j]);
                assert(keys[0] != keys[j]);
                assert(all[j] == resolve_all(rest, tail).0[j - 1]);
                lemma_resolution_order_independent(s, k0.0, k0.1, keys[j].0, keys[j].1);
            }
        }
    }
}

impl Correlator {
    /// No two requests in flight share a server and an id.
    pub closed spec fn wf(&self) -> bool {
        keys_unique(self@)
    }

    /// An empty table.
    pub fn new() -> (r: Correlator)
        ensures
            r.wf(),
            r@ == Seq::<PendingView>::empty(),
    {
        let r = Correlator { entries: Vec::new() };
        assert(r@ =~= Seq::<PendingView>::empty());
        r
    }

    /// How many requests are in flight.
    pub fn len(&self) -> (r: usize)
        ensures
            r == self@.len(),
    {
        self.entries.len()
    }

    fn find(&self, server: &String, id: &RequestId) -> (r: Option<usize>)
        ensures
            match r {
                Some(i) => position(self@, server@, id@) == Some(i as int),
                None => position(self@, server@, id@) is None,
            },
    {
        let mut i: usize = self.entries.len();
        assert(self@.take(i as int) =~= self@);
        while i > 0
            invariant
                0 <= i <= self.entries@.len(),
                forall|j: int|
                    i <= j < self@.len() ==> !has_key(#[trigger] self@[j], server@, id@),
                position(self@, server@, id@) == position(self@.take(i as int), server@, id@),
            decreases i,
        {
            let e = &self.entries[i - 1];
            assert(self@[i - 1] == e@);
            if e.server == *server && e.id.same(id) {
                assert(self@.take(i as int).last() == self@[i - 1]);
                return Some(i - 1);
            }
            assert(self@.take(i as int).drop_last() =~= self@.take(i - 1));
            i = i - 1;
        }
        None
    }

    /// Puts a request in flight; fails when one with the same server and id
    /// is in flight already.
    pub fn register(&mut self, server: String, id: RequestId, method: String, issued_at: i64) -> (r:
        Result<(), CorrelatorError>)
        requires
            old(self).wf(),
        ensures
            final(self).wf(),
            r is Ok <==> position(old(self)@, server@, id@) is None,
            r is Ok ==> final(self)@ == old(self)@.push(
                PendingView {
                    server: server@,
                    id: id@,
                    method: method@,
                    issued_at: issued_at as int,
                },
            ),
            r is Err ==> final(self)@ == old(self)@,
    {
        match self.find(&server, &id) {
            Some(_) => Err(CorrelatorError::DuplicateId),
            None => {
                proof {
                    lemma_position(self@, server@, id@);
                }
                let p = PendingRequest { server, id, method, issued_at };
                let ghost pv = p@;
                self.entries.push(p);
                assert(self@ =~= old(self)@.push(pv));
                Ok(())
            },
        }
    }

    /// Resolves the request in flight that a response with this id on this
    /// server answers. Without one, the response is unsolicited and the
    /// table is left as it was.
    pub fn resolve(&mut self, server: &String, id: &RequestId) -> (r: Resolution)
        requires
            old(self).wf(),
        ensures
            final(self).wf(),
            (r@, final(self)@) == resolve_model(old(self)@, server@, id@),
    {
        match self.find(server, id) {
            Some(i) => {
                proof {
                    lemma_position(self@, server@, id@);
                }
                let p = self.entries.remove(i);
                assert(self@ =~= old(self)@.remove(i as int));
                proof {
                    lemma_remove_keeps_unique(old(self)@, i as int);
                }
                Resolution::Resolved(p)
            },
            None => Resolution::Unsolicited,
        }
    }

    /// Gives up on every request in flight issued at or before `deadline`,
    /// and hands them back in the order they were registered; a response
    /// that arrives for one of them later is unsolicited.
    pub fn expire(&mut self, deadline: i64) -> (r: Vec<PendingRequest>)
        requires
            old(self).wf(),
        ensures
            final(self).wf(),
            views_of(r@) == old(self)@.filter(
                |p: PendingView| p.issued_at <= deadline,
            ),
            final(self)@ == old(self)@.filter(|p: PendingView| p.issued_at > deadline),
    {
        let ghost s = old(self)@;
        let ghost due = |p: PendingView| p.issued_at <= deadline;
        let ghost live = |p: PendingView| p.issued_at > deadline;
        let mut src: Vec<PendingRequest> = Vec::new();
        std::mem::swap(&mut src, &mut self.entries);
        let mut expired: Vec<PendingRequest> = Vec::new();
        let mut kept: Vec<PendingRequest> = Vec::new();
        let ghost mut i: int = 0;
        proof {
            reveal(Seq::filter);
            assert(views_of(src@) =~= s.skip(0));
            assert(s.take(0).filter(due) =~= Seq::<PendingView>::empty());
            assert(s.take(0).filter(live) =~= Seq::<PendingView>::empty());
            assert(views_of(expired@) =~= Seq::<PendingView>::empty());
            assert(views_of(kept@) =~= Seq::<PendingView>::empty());
        }
        while src.len() > 0
            invariant
                keys_unique(s),
                0 <= i <= s.len(),
                src@.len() == s.len() - i,
                views_of(src@) == s.skip(i),
                views_of(expired@) == s.take(i).filter(due),
                views_of(kept@) == s.take(i).filter(live),
                keys_unique(views_of(kept@)),
                forall|a: int|
                    0 <= a < kept@.len() ==> exists|j: int|
                        0 <= j < i && #[trigger] kept@[a]@ == s[j],
                due == (|p: PendingView| p.issued_at <= deadline),
                live == (|p: PendingView| p.issued_at > deadline),
            decreases src@.len(),
        {
            let ghost src_before = src@;
            let p = src.remove(0);
            proof {
                reveal(Seq::filter);
                assert(views_of(src_before)[0] == src_before[0]@);
                assert(s.skip(i)[0] == s[i]);
                assert(p@ == s[i]);
                assert forall|k: int| 0 <= k < src@.len() implies #[trigger] src@[k] == src_before[k + 1] by {}
                assert forall|k: int| 0 <= k < src@.len() implies #[trigger] views_of(src@)[k] == s.skip(i + 1)[k] by {
                    assert(views_of(src_before)[k + 1] == src_before[k + 1]@);
                    assert(s.skip(i)[k + 1] == s.skip(i + 1)[k]);
                }
                assert(views_of(src@) =~= s.skip(i + 1));
                assert(s.take(i + 1).drop_last() =~= s.take(i));
                assert(s.take(i + 1).last() == s[i]);
            }
            if p.issued_at <= deadline {
                let ghost before = views_of(expired@);
                expired.push(p);
                assert(views_of(expired@) =~= before.push(s[i]));
                assert(s.take(i + 1).filter(due) == s.take(i).filter(due).push(s[i])) by {
                    reveal(Seq::filter);
                }
                assert(s.take(i + 1).filter(live) == s.take(i).filter(live)) by {
                    reveal(Seq::filter);
                }
            } else {
                let ghost before = views_of(kept@);
                let ghost kept_before = kept@;
                kept.push(p);
                let ghost after = views_of(kept@);
                assert(after =~= before.push(s[i]));
                assert(s.take(i + 1).filter(live) == s.take(i).filter(live).push(s[i])) by {
                    reveal(Seq::filter);
                }
                assert(s.take(i + 1).filter(due) == s.take(i).filter(due)) by {
                    reveal(Seq::filter);
                }
                assert forall|a: int, b: int|
                    #![trigger after[a], after[b]]
                    0 <= a < after.len() && 0 <= b < after.len() && a != b implies !has_key(
                    after[a],
                    after[b].server,
                    after[b].id,
                ) by {
                    if a < before.len() && b < before.len() {
                        assert(after[a] == before[a] && after[b] == before[b]);
                    } else if a < before.len() {
                        assert(kept_before[a]@ == before[a]);
                        let j = choose|j: int| 0 <= j < i && kept_before[a]@ == s[j];
                        assert(after[a] == s[j]);
                        assert(after[b] == s[i]);
                    } else {
                        assert(kept_before[b]@ == before[b]);
                        let j = choose|j: int| 0 <= j < i && kept_before[b]@ == s[j];
                        assert(after[b] == s[j]);
                        assert(after[a] == s[i]);
                    }
                }
                assert forall|a: int| 0 <= a < kept@.len() implies exists|j: int|
                    0 <= j < i + 1 && #[trigger] kept@[a]@ == s[j] by {
                    if a < kept_before.len() {
                        assert(kept@[a] == kept_before[a]);
                    } else {
                        assert(kept@[a]@ == s[i]);
                    }
                }
            }
            proof {
                i = i + 1;
            }
        }
        assert(s.take(i) =~= s);
        self.entries = kept;
        expired
    }
}

} // verus!
