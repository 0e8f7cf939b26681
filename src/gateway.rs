//! The language-server gateway: the registry of servers and the requests in
//! flight, the checks and framing done before a message is written to a
//! server, and the decisions of each server's reader loop.
//!
//! The processes themselves, their pipes, threads and the clock are the
//! caller's: it hands this module the bytes it read and the time, and writes
//! the bytes it is given.

use vstd::prelude::*;
use vstd::string::{StringExecFns, StringSliceAdditionalSpecFns};
use crate::correlator::{position, Correlator, CorrelatorError, PendingView};
use crate::decimal::{decimal, lemma_decimal_digits};
use crate::framing::{frame_of, items_of, scan, CloseReason, FrameEvent, FrameItem, FrameReader, ReaderModel};
use crate::registry::{
    lemma_server_index, server_index, send_check, texts_of, DescriptorView, LanguageServerProcess,
    Registry, RegistryError, ServerState,
};
use crate::router::{json_shape, message_shape};
use crate::session::{body_handled, encode_message, handle_body, InboundEvent};
use crate::text::{ascii_text, decimal_string, digits_string, signed_decimal};

verus! {

/// The id of the server for `language` spawned at `millis` as the
/// gateway's `serial`-th registration: `<language>_<millis>_<serial>`.
pub open spec fn server_id_text(language: Seq<char>, millis: int, serial: nat) -> Seq<char> {
    (language + "_"@ + ascii_text(signed_decimal(millis))) + "_"@ + ascii_text(decimal(serial))
}

/// The id of the server for `language` spawned at `millis` as the
/// `serial`-th registration.
pub fn server_id(language: &str, millis: i64, serial: u64) -> (r: String)
    ensures
        r@ == server_id_text(language@, millis as int, serial as nat),
{
    let mut s = String::from_str(language);
    s.append("_");
    let d = decimal_string(millis);
    s.append(d.as_str());
    s.append("_");
    let n = digits_string(serial);
    s.append(n.as_str());
    s
}

/// Two ids that end in different serial numbers differ, whatever comes
/// before them.
pub proof fn lemma_serial_decides_id(a: Seq<char>, b: Seq<char>, s1: nat, s2: nat)
    requires
        a + "_"@ + ascii_text(decimal(s1)) == b + "_"@ + ascii_text(decimal(s2)),
    ensures
        s1 == s2,
{
    reveal_strlit("_");
    lemma_decimal_digits(s1);
    lemma_decimal_digits(s2);
    let d1 = ascii_text(decimal(s1));
    let d2 = ascii_text(decimal(s2));
    let x = a + "_"@ + d1;
    let y = b + "_"@ + d2;
    assert forall|i: int| 0 <= i < d1.len() implies #[trigger] d1[i] != '_' by {
        let c = decimal(s1)[i];
        assert(48 <= c <= 57);
    }
    assert forall|i: int| 0 <= i < d2.len() implies #[trigger] d2[i] != '_' by {
        let c = decimal(s2)[i];
        assert(48 <= c <= 57);
    }
    let n = x.len();
    if d1.len() < d2.len() {
        let p = n - d1.len() - 1;
        assert(x[p] == '_');
        assert(y[p] == d2[p - b.len() - 1]);
    } else if d2.len() < d1.len() {
        let p = n - d2.len() - 1;
        assert(y[p] == '_');
        assert(x[p] == d1[p - a.len() - 1]);
    } else {
        assert forall|i: int| 0 <= i < d1.len() implies decimal(s1)[i] == decimal(s2)[i] by {
            assert(x[a.len() + 1 + i] == d1[i]);
            assert(y[b.len() + 1 + i] == d2[i]);
            assert(d1[i] == d2[i]);
            let c1 = decimal(s1)[i];
            let c2 = decimal(s2)[i];
            assert(c1 as char == c2 as char);
            assert(c1 == c2);
        }
        assert(decimal(s1) =~= decimal(s2));
    }
}

/// Why the gateway refused to send.
#[derive(Clone, Copy, Debug, PartialEq, Eq, Structural)]
pub enum GatewayError {
    /// No server has that id.
    NotFound,
    /// The server is not running.
    NotRunning,
    /// A request with that id is in flight on that server already.
    DuplicateId,
}

/// The gateway's error for a registry refusal.
pub open spec fn from_registry(e: RegistryError) -> GatewayError {
    match e {
        RegistryError::NotRunning => GatewayError::NotRunning,
        _ => GatewayError::NotFound,
    }
}

/// The method recorded for a request: its `method`, or empty.
pub open spec fn method_or_empty(m: Option<Seq<char>>) -> Seq<char> {
    match m {
        Some(t) => t,
        None => Seq::empty(),
    }
}

/// The servers and the requests in flight to them.
pub struct Gateway {
    pub registry: Registry,
    pub requests: Correlator,
    /// The serial number of the next registration.
    pub next_serial: u64,
}

impl Gateway {
    /// How many servers have been registered so far.
    pub open spec fn serial(&self) -> nat {
        self.next_serial as nat
    }

    /// Both tables are well formed, and every registered id ends in a serial
    /// number below the next one.
    pub open spec fn wf(&self) -> bool {
        &&& self.registry.wf()
        &&& self.requests.wf()
        &&& forall|i: int|
            0 <= i < self.registry@.len() ==> exists|l: Seq<char>, m: int, k: nat|
                k < self.next_serial && #[trigger] self.registry@[i].id == server_id_text(l, m, k)
    }

    /// A gateway with no servers.
    pub fn new() -> (r: Gateway)
        ensures
            r.wf(),
            r.serial() == 0,
            r.registry@ == Seq::<DescriptorView>::empty(),
            r.requests@ == Seq::<PendingView>::empty(),
    {
        Gateway { registry: Registry::new(), requests: Correlator::new(), next_serial: 0 }
    }

    /// Whether another server can be registered: the serial numbers are not
    /// used up.
    pub fn can_register(&self) -> (r: bool)
        ensures
            r == (self.serial() < u64::MAX),
    {
        self.next_serial < u64::MAX
    }

    /// Registers a server about to be spawned at `millis`, in state
    /// `Starting`, under the id `<language>_<millis>_<serial>`, which no
    /// registered server has, and returns that id.
    pub fn register_server_at(
        &mut self,
        command: String,
        args: Vec<String>,
        language: String,
        millis: i64,
    ) -> (r: String)
        requires
            old(self).wf(),
            old(self).serial() < u64::MAX,
        ensures
            final(self).wf(),
            final(self).serial() == old(self).serial() + 1,
            final(self).requests@ == old(self).requests@,
            r@ == server_id_text(language@, millis as int, old(self).serial()),
            server_index(old(self).registry@, r@) is None,
            final(self).registry@ == old(self).registry@.push(
                DescriptorView {
                    id: r@,
                    command: command@,
                    args: texts_of(args@),
                    language: language@,
                    state: ServerState::Starting,
                },
            ),
    {
        let n = self.next_serial;
        let id = server_id(language.as_str(), millis, n);
        proof {
            lemma_server_index(self.registry@, id@);
            if let Some(i) = server_index(self.registry@, id@) {
                let (l, m, k) = choose|l: Seq<char>, m: int, k: nat|
                    k < n && #[trigger] self.registry@[i].id == server_id_text(l, m, k);
                lemma_serial_decides_id(
                    l + "_"@ + ascii_text(signed_decimal(m)),
                    language@ + "_"@ + ascii_text(signed_decimal(millis as int)),
                    k,
                    n as nat,
                );
            }
        }
        let ghost old_reg = self.registry@;
        let process = LanguageServerProcess { id: id.clone(), command, args, language };
        let ghost pl = process.language@;
        let res = self.registry.insert(process);
        match res {
            Ok(()) => {},
            Err(_) => {
                assert(false);
            },
        }
        self.next_serial = n + 1;
        proof {
            let reg = self.registry@;
            assert forall|i: int| 0 <= i < reg.len() implies exists|l: Seq<char>, m: int, k: nat|
                k < self.next_serial && #[trigger] reg[i].id == server_id_text(l, m, k) by {
                if i < old_reg.len() {
                    assert(reg[i] == old_reg[i]);
                    let (l, m, k) = choose|l: Seq<char>, m: int, k: nat|
                        k < n && #[trigger] old_reg[i].id == server_id_text(l, m, k);
                    assert(k < self.next_serial && reg[i].id == server_id_text(l, m, k));
                } else {
                    assert(reg[i].id == server_id_text(pl, millis as int, n as nat));
                }
            }
        }
        id
    }

    /// The frame to write for a notification to server `server`, once the
    /// server is found running.
    pub fn prepare_notification(&self, server: &String, payload: &str) -> (r: Result<
        Vec<u8>,
        GatewayError,
    >)
        ensures
            match send_check(self.registry@, server@) {
                Ok(()) => r matches Ok(f) && f@ == frame_of(payload.spec_bytes()),
                Err(e) => r == Err::<Vec<u8>, GatewayError>(from_registry(e)),
            },
    {
        match self.registry.check_send(server) {
            Ok(()) => Ok(encode_message(payload)),
            Err(RegistryError::NotRunning) => Err(GatewayError::NotRunning),
            Err(_) => Err(GatewayError::NotFound),
        }
    }

    /// The frame to write for a request to server `server`, once the server
    /// is found running. A request whose text carries an integer or string
    /// id is put in flight first, issued at `issued_at`; an id already in
    /// flight on that server is refused.
    pub fn prepare_request(&mut self, server: &String, payload: &str, issued_at: i64) -> (r:
        Result<Vec<u8>, GatewayError>)
        requires
            old(self).wf(),
        ensures
            final(self).wf(),
            final(self).serial() == old(self).serial(),
            final(self).registry@ == old(self).registry@,
            match send_check(old(self).registry@, server@) {
                Err(e) => r == Err::<Vec<u8>, GatewayError>(from_registry(e))
                    && final(self).requests@ == old(self).requests@,
                Ok(()) => match json_shape(payload@) {
                    Some(sh) if sh.id is Some => match position(
                        old(self).requests@,
                        server@,
                        sh.id->Some_0,
                    ) {
                        None => (r matches Ok(f) && f@ == frame_of(payload.spec_bytes()))
                            && final(self).requests@ == old(self).requests@.push(
                            PendingView {
                                server: server@,
                                id: sh.id->Some_0,
                                method: method_or_empty(sh.method),
                                issued_at: issued_at as int,
                            },
                        ),
                        Some(_) => r == Err::<Vec<u8>, GatewayError>(GatewayError::DuplicateId)
                            && final(self).requests@ == old(self).requests@,
                    },
                    _ => (r matches Ok(f) && f@ == frame_of(payload.spec_bytes()))
                        && final(self).requests@ == old(self).requests@,
                },
            },
    {
        match self.registry.check_send(server) {
            Ok(()) => {},
            Err(RegistryError::NotRunning) => return Err(GatewayError::NotRunning),
            Err(_) => return Err(GatewayError::NotFound),
        }
        match message_shape(payload) {
            Some(shape) => match shape.id {
                Some(id) => {
                    let method = match shape.method {
                        Some(m) => m,
                        None => String::new(),
                    };
                    match self.requests.register(server.clone(), id, method, issued_at) {
                        Ok(()) => {},
                        Err(CorrelatorError::DuplicateId) => return Err(GatewayError::DuplicateId),
                    }
                },
                None => {},
            },
            None => {},
        }
        Ok(encode_message(payload))
    }
}

/// What a reader loop reports.
pub enum GatewayEvent {
    /// A complete, decoded message.
    Inbound(InboundEvent),
    /// A header block without a usable `Content-Length` was skipped.
    FramingError,
    /// The stream closed; reported once.
    StreamClosed(CloseReason),
}

/// Whether `ev` reports the item `item` from `server`, with the requests in
/// flight going from `t0` to `t1`: a framing error changes nothing, and a
/// body is handled as `handle_body` handles it.
pub open spec fn item_reported(
    t0: Seq<PendingView>,
    t1: Seq<PendingView>,
    server: Seq<char>,
    item: FrameItem,
    ev: GatewayEvent,
) -> bool {
    match item {
        FrameItem::Message(b) => (ev matches GatewayEvent::Inbound(e) && body_handled(
            t0,
            t1,
            server,
            b,
            e,
        )),
        FrameItem::FramingError => ev is FramingError && t1 == t0,
    }
}

/// The decisions of one server's reader loop.
pub struct SessionReader {
    pub server: String,
    pub frames: FrameReader,
}

impl SessionReader {
    /// A reader at the start of server `server`'s output.
    pub fn new(server: String) -> (r: SessionReader)
        ensures
            r.frames@ == ReaderModel::Open(Seq::empty()),
            r.server@ == server@,
    {
        SessionReader { server, frames: FrameReader::new() }
    }

    /// Whether the stream still takes bytes.
    pub fn is_open(&self) -> (r: bool)
        ensures
            r == self.frames@ is Open,
    {
        self.frames.is_open()
    }

    /// Takes the next chunk of output and reports one event for each item
    /// that is now complete, in stream order: a framing error as such, and
    /// each body as `handle_body` handles it. The requests in flight go
    /// through one table after another, `tables[i]` before item `i` and
    /// `tables[i + 1]` after it.
    pub fn on_output(&mut self, requests: &mut Correlator, chunk: &[u8]) -> (events: Vec<
        GatewayEvent,
    >)
        requires
            old(requests).wf(),
        ensures
            final(requests).wf(),
            final(self).server == old(self).server,
            match old(self).frames@ {
                ReaderModel::Open(p) => {
                    let (items, rest) = scan(p + chunk@);
                    &&& events@.len() == items.len()
                    &&& exists|tables: Seq<Seq<PendingView>>|
                        {
                            &&& tables.len() == items.len() + 1
                            &&& tables[0] == old(requests)@
                            &&& tables.last() == final(requests)@
                            &&& forall|i: int|
                                0 <= i < items.len() ==> item_reported(
                                    tables[i],
                                    tables[i + 1],
                                    old(self).server@,
                                    items[i],
                                    #[trigger] events@[i],
                                )
                        }
                    &&& match rest {
                        Some(r) => final(self).frames@ == ReaderModel::Open(r),
                        None => final(self).frames@ == ReaderModel::Desynchronized,
                    }
                },
                _ => events@.len() == 0 && final(self).frames@ == old(self).frames@
                    && final(requests)@ == old(requests)@,
            },
    {
        let mut items = self.frames.feed(chunk);
        let ghost all = items@;
        let mut events: Vec<GatewayEvent> = Vec::new();
        let ghost mut k: int = 0;
        let ghost mut tables: Seq<Seq<PendingView>> = seq![requests@];
        while items.len() > 0
            invariant
                requests.wf(),
                0 <= k <= all.len(),
                items@ == all.skip(k),
                events@.len() == k,
                tables.len() == k + 1,
                tables[0] == old(requests)@,
                tables.last() == requests@,
                forall|i: int|
                    0 <= i < k ==> item_reported(
                        tables[i],
                        tables[i + 1],
                        self.server@,
                        all[i]@,
                        #[trigger] events@[i],
                    ),
                old(self).frames@ is Open || (all.len() == 0 && requests@ == old(requests)@),
                self.server == old(self).server,
            decreases items@.len(),
        {
            let ghost before = requests@;
            let ghost events_before = events@;
            let e = items.remove(0);
            assert(e == all[k]);
            assert(items@ =~= all.skip(k + 1));
            match e {
                FrameEvent::Message(body) => {
                    let ev = handle_body(requests, &self.server, body);
                    events.push(GatewayEvent::Inbound(ev));
                },
                FrameEvent::FramingError => {
                    events.push(GatewayEvent::FramingError);
                },
            }
            proof {
                let t2 = tables.push(requests@);
                assert(item_reported(before, requests@, self.server@, all[k]@, events@[k]));
                assert forall|i: int|
                    0 <= i < k + 1 implies item_reported(
                    t2[i],
                    t2[i + 1],
                    self.server@,
                    all[i]@,
                    #[trigger] events@[i],
                ) by {
                    if i < k {
                        assert(events@[i] == events_before[i]);
                        assert(t2[i] == tables[i] && t2[i + 1] == tables[i + 1]);
                    }
                }
                tables = t2;
                k = k + 1;
            }
        }
        proof {
            if old(self).frames@ is Open {
                assert forall|i: int| 0 <= i < all.len() implies items_of(all)[i] == all[i]@ by {}
                assert(tables.len() == items_of(all).len() + 1);
            }
        }
        events
    }

    /// Reports the end of the output once, as `StreamClosed` with its
    /// reason; later calls report nothing.
    pub fn on_end(&mut self) -> (r: Option<GatewayEvent>)
        ensures
            final(self).frames@ == ReaderModel::Closed,
            final(self).server == old(self).server,
            match old(self).frames@ {
                ReaderModel::Open(p) => (r matches Some(GatewayEvent::StreamClosed(c)) && c == if p.len()
                    == 0 {
                    CloseReason::EndOfStream
                } else {
                    CloseReason::Truncated
                }),
                ReaderModel::Desynchronized => (r matches Some(GatewayEvent::StreamClosed(c)) && c
                    == CloseReason::Unrecoverable),
                ReaderModel::Closed => r is None,
            },
    {
        match self.frames.finish() {
            Some(c) => Some(GatewayEvent::StreamClosed(c)),
            None => None,
        }
    }
}

} // verus!
