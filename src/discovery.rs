use vstd::prelude::*;

use crate::error::AscendError;
use crate::json::{lemma_items_view, lemma_members_view, members_view, Json, JsonValue};
use crate::protocol::Response;
use crate::registry::{LinkRegistry, RoomRegistry};

verus! {

/// Longest pause between discovery attempts, in seconds.
pub const MAX_BACKOFF_SECS: u64 = 60;

/// The pause after `n` consecutive failed attempts: none, then one second,
/// doubling with each further failure up to the maximum.
pub open spec fn backoff_after(n: nat) -> nat
    decreases n,
{
    if n == 0 {
        0
    } else if n == 1 {
        1
    } else if 2 * backoff_after((n - 1) as nat) > 60 {
        60
    } else {
        2 * backoff_after((n - 1) as nat)
    }
}

/// The pause that follows an attempt made after a pause of `current`.
pub open spec fn next_pause(current: nat, succeeded: bool) -> nat {
    if succeeded {
        0
    } else if current == 0 {
        1
    } else if 2 * current > 60 {
        60
    } else {
        2 * current
    }
}

/// The pause after an attempt: reset on success; otherwise one second after
/// the first failure, then doubled, capped at the maximum.
pub fn next_backoff(current: u64, succeeded: bool) -> (r: u64)
    ensures
        r == next_pause(current as nat, succeeded),
{
    if succeeded {
        0
    } else if current == 0 {
        1
    } else if current > MAX_BACKOFF_SECS / 2 {
        MAX_BACKOFF_SECS
    } else {
        current * 2
    }
}

/// The pause after `n` failures in a row that follow a pause of `start`.
pub open spec fn pause_after_failures(start: nat, n: nat) -> nat
    decreases n,
{
    if n == 0 {
        start
    } else {
        next_pause(pause_after_failures(start, (n - 1) as nat), false)
    }
}

/// Consecutive failures from a reset back off exactly as 1, 2, 4, 8, 16, 32,
/// then 60 seconds for every further failure; one success resets to 0.
pub proof fn lemma_backoff_sequence(n: nat)
    ensures
        pause_after_failures(0, n) == backoff_after(n),
        n >= 7 ==> backoff_after(n) == 60,
        next_pause(backoff_after(n), true) == 0,
    decreases n,
{
    if n > 0 {
        lemma_backoff_sequence((n - 1) as nat);
    }
    assert(backoff_after(1) == 1);
    assert(backoff_after(2) == 2);
    assert(backoff_after(3) == 4);
    assert(backoff_after(4) == 8);
    assert(backoff_after(5) == 16);
    assert(backoff_after(6) == 32);
    assert(backoff_after(7) == 60);
}

/// Where the discovery loop stands.
#[derive(Clone, Copy, Debug, PartialEq, Eq, Structural)]
pub enum Phase {
    /// Not started yet.
    Idle,
    /// Contacting the discovery service and the devices it reports.
    Scanning,
    /// Waiting out the pause before the next attempt.
    Sleeping,
    /// Stopped for good.
    Stopped,
}

/// What happened to the discovery loop.
#[derive(Clone, Copy, Debug, PartialEq, Eq, Structural)]
pub enum LoopEvent {
    Started,
    ScanSucceeded,
    ScanFailed,
    SleepElapsed,
    StopRequested,
}

/// What the loop's runner is to do next.
#[derive(Clone, Copy, Debug, PartialEq, Eq, Structural)]
pub enum LoopAction {
    /// Run one discovery attempt.
    Scan,
    /// Sleep this many seconds, waking early on a stop request.
    Sleep(u64),
    /// Leave the loop.
    Exit,
    /// Nothing to do for this event.
    Wait,
}

/// The discovery loop's decisions, driven by the events its runner reports.
#[derive(Clone, Copy, Debug)]
pub struct DiscoveryLoop {
    pub phase: Phase,
    /// Current pause, in seconds.
    pub backoff: u64,
}

/// One transition of the loop: a stop request ends it from any state; a
/// success resets the pause and scans again at once; a failure lengthens the
/// pause and sleeps it; a finished pause scans again.
pub open spec fn transition(s: DiscoveryLoop, e: LoopEvent) -> (DiscoveryLoop, LoopAction) {
    if s.phase == Phase::Stopped || e == LoopEvent::StopRequested {
        (DiscoveryLoop { phase: Phase::Stopped, backoff: s.backoff }, LoopAction::Exit)
    } else {
        match (s.phase, e) {
            (Phase::Idle, LoopEvent::Started) => (
                DiscoveryLoop { phase: Phase::Scanning, backoff: 0 },
                LoopAction::Scan,
            ),
            (Phase::Scanning, LoopEvent::ScanSucceeded) => (
                DiscoveryLoop { phase: Phase::Scanning, backoff: 0 },
                LoopAction::Scan,
            ),
            (Phase::Scanning, LoopEvent::ScanFailed) => {
                let b = next_pause(s.backoff as nat, false) as u64;
                (DiscoveryLoop { phase: Phase::Sleeping, backoff: b }, LoopAction::Sleep(b))
            },
            (Phase::Sleeping, LoopEvent::SleepElapsed) => (
                DiscoveryLoop { phase: Phase::Scanning, backoff: s.backoff },
                LoopAction::Scan,
            ),
            _ => (s, LoopAction::Wait),
        }
    }
}

impl DiscoveryLoop {
    /// A loop that has not started, with no pause.
    pub fn new() -> (r: DiscoveryLoop)
        ensures
            r.phase == Phase::Idle,
            r.backoff == 0,
    {
        DiscoveryLoop { phase: Phase::Idle, backoff: 0 }
    }

    /// Applies one event and says what to do next.
    pub fn step(&mut self, event: LoopEvent) -> (r: LoopAction)
        ensures
            (*final(self), r) == transition(*old(self), event),
    {
        if self.phase == Phase::Stopped || event == LoopEvent::StopRequested {
            self.phase = Phase::Stopped;
            return LoopAction::Exit;
        }
        match (self.phase, event) {
            (Phase::Idle, LoopEvent::Started) => {
                self.phase = Phase::Scanning;
                self.backoff = 0;
                LoopAction::Scan
            },
            (Phase::Scanning, LoopEvent::ScanSucceeded) => {
                self.backoff = 0;
                LoopAction::Scan
            },
            (Phase::Scanning, LoopEvent::ScanFailed) => {
                self.backoff = next_backoff(self.backoff, false);
                self.phase = Phase::Sleeping;
                LoopAction::Sleep(self.backoff)
            },
            (Phase::Sleeping, LoopEvent::SleepElapsed) => {
                self.phase = Phase::Scanning;
                LoopAction::Scan
            },
            _ => LoopAction::Wait,
        }
    }
}

/// A stop request ends the loop from every state, a pause included, and a
/// stopped loop stays stopped whatever happens next.
pub proof fn lemma_stop_is_final(s: DiscoveryLoop, e: LoopEvent)
    ensures
        transition(s, LoopEvent::StopRequested).0.phase == Phase::Stopped,
        transition(s, LoopEvent::StopRequested).1 == LoopAction::Exit,
        s.phase == Phase::Stopped ==> transition(s, e).0.phase == Phase::Stopped && transition(
            s,
            e,
        ).1 == LoopAction::Exit,
{
}

/// The loop state after `n` rounds of a failed scan followed by its pause,
/// starting from a freshly started loop.
pub open spec fn after_failed_rounds(n: nat) -> DiscoveryLoop
    decreases n,
{
    if n == 0 {
        transition(DiscoveryLoop { phase: Phase::Idle, backoff: 0 }, LoopEvent::Started).0
    } else {
        let failed = transition(after_failed_rounds((n - 1) as nat), LoopEvent::ScanFailed).0;
        transition(failed, LoopEvent::SleepElapsed).0
    }
}

/// Driven through failed scans, the loop pauses exactly the backoff
/// sequence: the `n+1`-th failure sleeps `backoff_after(n+1)` seconds, and a
/// success then resets the pause and scans at once.
pub proof fn lemma_loop_backs_off(n: nat)
    ensures
        after_failed_rounds(n).phase == Phase::Scanning,
        after_failed_rounds(n).backoff == backoff_after(n),
        transition(after_failed_rounds(n), LoopEvent::ScanFailed).1 == LoopAction::Sleep(
            backoff_after(n + 1) as u64,
        ),
        transition(after_failed_rounds(n), LoopEvent::ScanSucceeded) == (
            DiscoveryLoop { phase: Phase::Scanning, backoff: 0 },
            LoopAction::Scan,
        ),
    decreases n,
{
    lemma_backoff_bounded(n);
    lemma_backoff_bounded(n + 1);
    if n > 0 {
        lemma_loop_backs_off((n - 1) as nat);
    }
}

/// A pause the backoff sequence can take.
pub open spec fn is_pause(b: nat) -> bool {
    b == 0 || b == 1 || b == 2 || b == 4 || b == 8 || b == 16 || b == 32 || b == 60
}

/// The loop after `events`, one after another, starting from `s`.
pub open spec fn run_loop(s: DiscoveryLoop, events: Seq<LoopEvent>) -> DiscoveryLoop
    decreases events.len(),
{
    if events.len() == 0 {
        s
    } else {
        transition(run_loop(s, events.drop_last()), events.last()).0
    }
}

/// Whatever the order of successes, failures, pauses and stops, a loop that
/// starts unstarted only ever pauses 0, 1, 2, 4, 8, 16, 32 or 60 seconds, and
/// every pause it is told to sleep is one of these.
pub proof fn lemma_pause_stays_in_sequence(events: Seq<LoopEvent>, e: LoopEvent)
    ensures
        is_pause(run_loop(DiscoveryLoop { phase: Phase::Idle, backoff: 0 }, events).backoff as nat),
        run_loop(DiscoveryLoop { phase: Phase::Idle, backoff: 0 }, events).backoff <= MAX_BACKOFF_SECS,
        transition(run_loop(DiscoveryLoop { phase: Phase::Idle, backoff: 0 }, events), e).1 matches LoopAction::Sleep(d)
            ==> is_pause(d as nat) && d > 0,
    decreases events.len(),
{
    let start = DiscoveryLoop { phase: Phase::Idle, backoff: 0 };
    if events.len() > 0 {
        lemma_pause_stays_in_sequence(events.drop_last(), events.last());
    }
    let s = run_loop(start, events);
    assert(is_pause(next_pause(s.backoff as nat, false)));
}

/// Every pause of the sequence is at most the maximum.
pub proof fn lemma_backoff_bounded(n: nat)
    ensures
        backoff_after(n) <= 60,
        n > 0 ==> backoff_after(n) == next_pause(backoff_after((n - 1) as nat), false),
    decreases n,
{
    if n > 0 {
        lemma_backoff_bounded((n - 1) as nat);
    }
}

/// The strings among `items`, in order.
pub open spec fn string_items(items: Seq<Json>) -> Seq<Seq<char>>
    decreases items.len(),
{
    if items.len() == 0 {
        Seq::empty()
    } else {
        match items.last() {
            Json::Str(t) => string_items(items.drop_last()).push(t),
            _ => string_items(items.drop_last()),
        }
    }
}

/// The addresses one device entry lists under `localIp4`.
pub open spec fn entry_addresses(entry: Json) -> Seq<Seq<char>> {
    match entry.get("localIp4"@) {
        Some(Json::Array(items)) => string_items(items),
        _ => Seq::empty(),
    }
}

/// The addresses of all device entries, in order.
pub open spec fn all_addresses(ms: Seq<(Seq<char>, Json)>) -> Seq<Seq<char>>
    decreases ms.len(),
{
    if ms.len() == 0 {
        Seq::empty()
    } else {
        all_addresses(ms.drop_last()) + entry_addresses(ms.last().1)
    }
}

/// The device addresses in a discovery reply's payload: every string under
/// `local.*.localIp4`, in order; none when `local` is not an object.
pub open spec fn reported_addresses(data: Json) -> Seq<Seq<char>> {
    match data.get("local"@) {
        Some(Json::Object(ms)) => all_addresses(ms),
        _ => Seq::empty(),
    }
}

/// The addresses one device entry lists.
fn addresses_of_entry(entry: &JsonValue, out: &mut Vec<String>)
    ensures
        final(out)@.len() == old(out)@.len() + entry_addresses(entry@).len(),
        forall|k: int| 0 <= k < old(out)@.len() ==> #[trigger] final(out)@[k] == old(out)@[k],
        forall|k: int|
            0 <= k < entry_addresses(entry@).len() ==> (#[trigger] final(out)@[old(out)@.len() + k])@
                == entry_addresses(entry@)[k],
{
    let items = match entry.get("localIp4") {
        Some(JsonValue::Array(items)) => items,
        _ => return,
    };
    proof {
        lemma_items_view(items@, items@.len() as int);
    }
    let ghost m = crate::json::items_view(items@, items@.len() as int);
    let ghost base = out@;
    let mut i: usize = 0;
    while i < items.len()
        invariant
            0 <= i <= items@.len(),
            m == crate::json::items_view(items@, items@.len() as int),
            m.len() == items@.len(),
            forall|j: int| 0 <= j < items@.len() ==> #[trigger] m[j] == items@[j]@,
            entry_addresses(entry@) == string_items(m),
            out@.len() == base.len() + string_items(m.take(i as int)).len(),
            forall|k: int| 0 <= k < base.len() ==> #[trigger] out@[k] == base[k],
            forall|k: int|
                0 <= k < string_items(m.take(i as int)).len() ==> (#[trigger] out@[base.len() + k])@
                    == string_items(m.take(i as int))[k],
        decreases items.len() - i,
    {
        proof {
            let t = m.take(i as int + 1);
            assert(t.drop_last() =~= m.take(i as int));
            assert(t.last() == items@[i as int]@);
        }
        match &items[i] {
            JsonValue::Str(s) => {
                out.push(s.clone());
            },
            _ => {},
        }
        i = i + 1;
    }
    proof {
        assert(m.take(items@.len() as int) =~= m);
    }
}

/// The device addresses a discovery reply's payload lists, in order; `None`
/// when it lists none.
pub fn parse_speaker_ips(data: &JsonValue) -> (r: Option<Vec<String>>)
    ensures
        match r {
            Some(ips) => reported_addresses(data@).len() > 0 && ips@.len() == reported_addresses(
                data@,
            ).len() && forall|k: int|
                0 <= k < ips@.len() ==> (#[trigger] ips@[k])@ == reported_addresses(data@)[k],
            None => reported_addresses(data@).len() == 0,
        },
{
    let ms = match data.get("local") {
        Some(JsonValue::Object(ms)) => ms,
        _ => return None,
    };
    proof {
        lemma_members_view(ms@, ms@.len() as int);
    }
    let ghost m = members_view(ms@, ms@.len() as int);
    let mut ips: Vec<String> = Vec::new();
    let mut i: usize = 0;
    while i < ms.len()
        invariant
            0 <= i <= ms@.len(),
            m == members_view(ms@, ms@.len() as int),
            m.len() == ms@.len(),
            forall|j: int| 0 <= j < ms@.len() ==> #[trigger] m[j] == (ms@[j].0@, ms@[j].1@),
            reported_addresses(data@) == all_addresses(m),
            ips@.len() == all_addresses(m.take(i as int)).len(),
            forall|k: int|
                0 <= k < ips@.len() ==> (#[trigger] ips@[k])@ == all_addresses(m.take(i as int))[k],
        decreases ms.len() - i,
    {
        proof {
            let t = m.take(i as int + 1);
            assert(t.drop_last() =~= m.take(i as int));
            assert(t.last() == m[i as int]);
        }
        let ghost before = ips@;
        addresses_of_entry(&ms[i].1, &mut ips);
        proof {
            let prev = all_addresses(m.take(i as int));
            let add = entry_addresses(ms@[i as int].1@);
            assert(all_addresses(m.take(i as int + 1)) == prev + add);
            assert forall|k: int| 0 <= k < ips@.len() implies (#[trigger] ips@[k])@ == (prev
                + add)[k] by {
                if k < before.len() {
                    assert(ips@[k] == before[k]);
                } else {
                    assert(ips@[before.len() + (k - before.len())] == ips@[k]);
                }
            }
        }
        i = i + 1;
    }
    proof {
        assert(m.take(ms@.len() as int) =~= m);
    }
    if ips.len() == 0 {
        None
    } else {
        Some(ips)
    }
}

/// What a discovery reply asks of this pass: the device addresses to visit,
/// or the failure that sets the loop backing off.
pub open spec fn plan_of(frame: Json, r: Result<Vec<String>, AscendError>) -> bool {
    match r {
        Ok(addrs) => exists|resp: Response|
            #![trigger crate::connection::response_decodes_to(frame, resp)]
            crate::connection::response_decodes_to(frame, resp) && !resp.is_error() && {
                let listed = match crate::json::json_view(resp.data) {
                    Some(d) => reported_addresses(d),
                    None => Seq::empty(),
                };
                addrs@.len() == listed.len() && forall|k: int|
                    0 <= k < listed.len() ==> (#[trigger] addrs@[k])@ == listed[k]
            },
        Err(AscendError::Json(_)) => !crate::protocol::response_ok(frame),
        Err(AscendError::ApiError { detail }) => exists|resp: Response|
            #![trigger crate::connection::response_decodes_to(frame, resp)]
            crate::connection::response_decodes_to(frame, resp) && resp.is_error()
                && detail@ == resp.details()->0[0],
        Err(_) => false,
    }
}

/// Reads the discovery service's reply: a malformed envelope or one carrying
/// errors is a failed attempt; otherwise the listed device addresses, which
/// may be none.
pub fn plan_scan(frame: &JsonValue) -> (r: Result<Vec<String>, AscendError>)
    ensures
        plan_of(frame@, r),
{
    let resp = match Response::from_json(frame) {
        Some(resp) => resp,
        None => return Err(AscendError::Json(crate::json::text("Malformed discovery response"))),
    };
    proof {
        assert(crate::connection::response_decodes_to(frame@, resp));
    }
    match crate::connection::settle(crate::connection::WaitOutcome::Replied(resp)) {
        Err(e) => Err(e),
        Ok(resp) => {
            let addrs = match &resp.data {
                Some(d) => match parse_speaker_ips(d) {
                    Some(ips) => ips,
                    None => Vec::new(),
                },
                None => Vec::new(),
            };
            proof {
                assert(crate::connection::response_decodes_to(frame@, resp));
            }
            Ok(addrs)
        },
    }
}

/// The state discovery keeps across runs: the device links, the rooms seen,
/// and the loop of the current run. Each start opens a new run; events of an
/// earlier run are answered with `Exit`, so a loop left over from before a
/// restart winds down without disturbing the new one.
pub struct DiscoveryCore<L> {
    links: LinkRegistry<L>,
    rooms: RoomRegistry,
    control: DiscoveryLoop,
    run: u64,
}

impl<L> DiscoveryCore<L> {
    /// The device links.
    pub closed spec fn link_registry(&self) -> LinkRegistry<L> {
        self.links
    }

    /// The rooms seen.
    pub closed spec fn room_registry(&self) -> RoomRegistry {
        self.rooms
    }

    /// The loop of the current run.
    pub closed spec fn loop_state(&self) -> DiscoveryLoop {
        self.control
    }

    /// The number of the current run.
    pub closed spec fn run_id(&self) -> u64 {
        self.run
    }

    /// Both registries are well formed.
    pub open spec fn wf(&self) -> bool {
        self.link_registry().wf() && self.room_registry().wf()
    }

    /// Empty registries and a loop that has not started.
    pub fn new() -> (r: Self)
        ensures
            r.wf(),
            r.link_registry().addresses() == Seq::<Seq<char>>::empty(),
            r.room_registry().entries() == Seq::<crate::room::Room>::empty(),
            r.loop_state().phase == Phase::Idle,
    {
        DiscoveryCore {
            links: LinkRegistry::new(),
            rooms: RoomRegistry::new(),
            control: DiscoveryLoop::new(),
            run: 0,
        }
    }

    /// The number of the current run.
    pub fn current_run(&self) -> (r: u64)
        ensures
            r == self.run_id(),
    {
        self.run
    }

    /// Stops the current run, if any. Safe when nothing runs.
    pub fn stop(&mut self)
        ensures
            final(self).link_registry() == old(self).link_registry(),
            final(self).room_registry() == old(self).room_registry(),
            final(self).run_id() == old(self).run_id(),
            final(self).loop_state() == transition(old(self).loop_state(), LoopEvent::StopRequested).0,
    {
        self.control.step(LoopEvent::StopRequested);
    }

    /// Stops any current run and starts a new one, keeping both registries.
    /// Returns the number of the new run.
    pub fn start(&mut self) -> (r: u64)
        ensures
            start_outcome(*old(self), *final(self), r),
    {
        self.stop();
        self.run = self.run.wrapping_add(1);
        self.control = DiscoveryLoop::new();
        self.control.step(LoopEvent::Started);
        self.run
    }

    /// The link of `address`, where it has one.
    pub fn find_link(&self, address: &str) -> (r: Option<&L>)
        ensures
            match r {
                Some(l) => exists|i: int|
                    0 <= i < self.link_registry().addresses().len()
                        && self.link_registry().addresses()[i] == address@
                        && #[trigger] self.link_registry().link_at(i) == *l,
                None => !self.link_registry().addresses().contains(address@),
            },
    {
        let r = self.links.find(address);
        proof {
            if r is Some {
                let i = choose|i: int|
                    0 <= i < self.links.addresses().len() && self.links.addresses()[i] == address@
                        && #[trigger] self.links.link_at(i) == *r->0;
                assert(self.link_registry().link_at(i) == *r->0);
            }
        }
        r
    }

    /// Keeps `link` for `address` unless it already has one; see `LinkRegistry::adopt`.
    pub fn adopt_link(&mut self, address: &str, link: L) -> (r: bool)
        requires
            old(self).wf(),
        ensures
            final(self).wf(),
            crate::registry::adopt_outcome(
                old(self).link_registry().addresses(),
                address@,
                final(self).link_registry().addresses(),
                r,
            ),
            final(self).room_registry() == old(self).room_registry(),
            final(self).loop_state() == old(self).loop_state(),
            final(self).run_id() == old(self).run_id(),
    {
        self.links.adopt(address, link)
    }

    /// Number of device links.
    pub fn link_count(&self) -> (r: usize)
        ensures
            r == self.link_registry().addresses().len(),
    {
        self.links.len()
    }

    /// Adds the rooms of a scan whose ids are new; see `RoomRegistry::merge_scanned`.
    pub fn merge_scanned(&mut self, scanned: Vec<crate::room::Room>)
        requires
            old(self).wf(),
        ensures
            final(self).wf(),
            final(self).room_registry().entries() == crate::registry::merged(
                old(self).room_registry().entries(),
                scanned@,
            ),
            final(self).link_registry() == old(self).link_registry(),
            final(self).loop_state() == old(self).loop_state(),
            final(self).run_id() == old(self).run_id(),
    {
        self.rooms.merge_scanned(scanned)
    }

    /// Applies a pushed room record; see `RoomRegistry::apply_update`.
    pub fn apply_update(&mut self, record: &JsonValue, address: &str) -> (r: Option<crate::types::RoomId>)
        requires
            old(self).wf(),
        ensures
            final(self).wf(),
            crate::registry::update_outcome(
                old(self).room_registry().entries(),
                record@,
                address@,
                final(self).room_registry().entries(),
                crate::json::text_view(r),
            ),
            final(self).link_registry() == old(self).link_registry(),
            final(self).loop_state() == old(self).loop_state(),
            final(self).run_id() == old(self).run_id(),
    {
        self.rooms.apply_update(record, address)
    }

    /// Copies of every room in ascending id order; see `RoomRegistry::rooms`.
    pub fn rooms(&self) -> (r: Vec<crate::room::Room>)
        requires
            self.wf(),
        ensures
            crate::order::ascending(crate::registry::room_keys(r@)),
            r@.len() == self.room_registry().entries().len(),
            forall|i: int|
                0 <= i < r@.len() ==> (#[trigger] r@[i]).current().same_as(
                    self.room_registry().entries()[i].current(),
                ) && r@[i].host() == self.room_registry().entries()[i].host(),
    {
        self.rooms.rooms()
    }

    /// Number of rooms known.
    pub fn room_count(&self) -> (r: usize)
        ensures
            r == self.room_registry().entries().len(),
    {
        self.rooms.room_count()
    }

    /// Forgets every room; links and the loop are kept.
    pub fn clear_rooms(&mut self)
        requires
            old(self).wf(),
        ensures
            final(self).wf(),
            final(self).room_registry().entries() == Seq::<crate::room::Room>::empty(),
            final(self).link_registry() == old(self).link_registry(),
            final(self).loop_state() == old(self).loop_state(),
            final(self).run_id() == old(self).run_id(),
    {
        self.rooms.clear_rooms()
    }

    /// Applies an event reported by the loop of run `run`.
    pub fn step(&mut self, run: u64, event: LoopEvent) -> (r: LoopAction)
        ensures
            final(self).link_registry() == old(self).link_registry(),
            final(self).room_registry() == old(self).room_registry(),
            final(self).run_id() == old(self).run_id(),
            run != old(self).run_id() ==> r == LoopAction::Exit && final(self).loop_state() == old(
                self,
            ).loop_state(),
            run == old(self).run_id() ==> (final(self).loop_state(), r) == transition(
                old(self).loop_state(),
                event,
            ),
    {
        if run != self.run {
            return LoopAction::Exit;
        }
        self.control.step(event)
    }
}

/// What `start` does: registries kept, a new run number, a started loop.
pub open spec fn start_outcome<L>(before: DiscoveryCore<L>, after: DiscoveryCore<L>, run: u64) -> bool {
    &&& after.link_registry() == before.link_registry()
    &&& after.room_registry() == before.room_registry()
    &&& run == after.run_id()
    &&& run as int == (before.run_id() as int + 1) % 0x1_0000_0000_0000_0000
    &&& after.loop_state() == DiscoveryLoop { phase: Phase::Scanning, backoff: 0 }
}

/// Starting twice keeps every known room and every device link: the second
/// start sees the registries exactly as they were before the first, the new
/// run begins scanning without a pause, and the earlier run is told to exit.
pub proof fn lemma_restart_keeps_registries<L>(
    c0: DiscoveryCore<L>,
    c1: DiscoveryCore<L>,
    first: u64,
    c2: DiscoveryCore<L>,
    second: u64,
)
    requires
        start_outcome(c0, c1, first),
        start_outcome(c1, c2, second),
    ensures
        c2.link_registry() == c0.link_registry(),
        c2.room_registry() == c0.room_registry(),
        c2.link_registry().addresses() == c0.link_registry().addresses(),
        c2.room_registry().entries() == c0.room_registry().entries(),
        c2.loop_state().backoff == 0,
        first != second,
{
}

} // verus!
