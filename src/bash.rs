//! Bash command bookkeeping: the event model, the terminal output a finished,
//! failed or timed-out command leaves, event file names, and the search over
//! stored events. Spawning processes, clocks and the event directory are the
//! caller's.

use vstd::prelude::*;
use vstd::seq_lib::{to_multiset_insert, to_multiset_build};
use crate::text::{chars_of, decimal, push_all, push_decimal, push_str_chars, string_of};

verus! {

/// A UTC instant broken down as the event store names and orders it.
#[derive(Debug, Clone, Copy, PartialEq, Eq)]
pub struct Timestamp {
    pub year: u32,
    pub month: u32,
    pub day: u32,
    pub hour: u32,
    pub minute: u32,
    pub second: u32,
    pub nanos: u32,
}

/// `a` is strictly earlier than `b`.
pub open spec fn ts_lt(a: Timestamp, b: Timestamp) -> bool {
    if a.year != b.year { a.year < b.year }
    else if a.month != b.month { a.month < b.month }
    else if a.day != b.day { a.day < b.day }
    else if a.hour != b.hour { a.hour < b.hour }
    else if a.minute != b.minute { a.minute < b.minute }
    else if a.second != b.second { a.second < b.second }
    else { a.nanos < b.nanos }
}

impl Timestamp {
    /// Whether `self` is strictly earlier than `other`.
    pub fn earlier_than(&self, other: &Timestamp) -> (r: bool)
        ensures
            r == ts_lt(*self, *other),
    {
        if self.year != other.year { self.year < other.year }
        else if self.month != other.month { self.month < other.month }
        else if self.day != other.day { self.day < other.day }
        else if self.hour != other.hour { self.hour < other.hour }
        else if self.minute != other.minute { self.minute < other.minute }
        else if self.second != other.second { self.second < other.second }
        else { self.nanos < other.nanos }
    }
}

/// A request to run a shell command.
#[derive(Debug, Clone)]
pub struct ExecuteBashRequest {
    pub command: String,
    pub cwd: Option<String>,
    pub timeout: Option<u64>,
}

/// The seconds a command may run when the request names no timeout.
pub const DEFAULT_TIMEOUT_SECONDS: u64 = 300;

/// A command that was started.
#[derive(Debug, Clone)]
pub struct BashCommand {
    pub id: u128,
    pub timestamp: Timestamp,
    pub command: String,
    pub cwd: Option<String>,
    pub timeout: u64,
}

/// Output that a command produced.
#[derive(Debug, Clone)]
pub struct BashOutput {
    pub id: u128,
    pub timestamp: Timestamp,
    pub command_id: u128,
    pub order: i32,
    pub exit_code: Option<i32>,
    pub stdout: Option<String>,
    pub stderr: Option<String>,
}

/// A stored bash event.
#[derive(Debug, Clone)]
pub enum BashEvent {
    BashCommand(BashCommand),
    BashOutput(BashOutput),
}

/// One page of search results.
#[derive(Debug, Clone)]
pub struct BashEventPage {
    pub items: Vec<BashEvent>,
    pub next_page_id: Option<String>,
}

pub open spec fn event_ts(e: BashEvent) -> Timestamp {
    match e {
        BashEvent::BashCommand(c) => c.timestamp,
        BashEvent::BashOutput(o) => o.timestamp,
    }
}

pub open spec fn event_id(e: BashEvent) -> u128 {
    match e {
        BashEvent::BashCommand(c) => c.id,
        BashEvent::BashOutput(o) => o.id,
    }
}

impl BashEvent {
    /// The event's own id.
    pub fn id(&self) -> (r: u128)
        ensures
            r == event_id(*self),
    {
        match self {
            BashEvent::BashCommand(c) => c.id,
            BashEvent::BashOutput(o) => o.id,
        }
    }

    /// When the event happened.
    pub fn timestamp(&self) -> (r: Timestamp)
        ensures
            r == event_ts(*self),
    {
        match self {
            BashEvent::BashCommand(c) => c.timestamp,
            BashEvent::BashOutput(o) => o.timestamp,
        }
    }
}

impl BashCommand {
    /// The command event for `req`, started at `now` under `id`; with no
    /// timeout in the request the default applies.
    pub fn from_request(req: ExecuteBashRequest, id: u128, now: Timestamp) -> (r: BashCommand)
        ensures
            r.id == id,
            r.timestamp == now,
            r.command == req.command,
            r.cwd == req.cwd,
            r.timeout == match req.timeout { Some(t) => t, None => DEFAULT_TIMEOUT_SECONDS },
    {
        let timeout = match req.timeout { Some(t) => t, None => DEFAULT_TIMEOUT_SECONDS };
        BashCommand { id, timestamp: now, command: req.command, cwd: req.cwd, timeout }
    }
}

/// How running a command ended.
#[derive(Debug, Clone)]
pub enum ProcessOutcome {
    /// The process could not be started, for the given reason.
    SpawnFailed(String),
    /// The deadline passed; the process was killed.
    TimedOut,
    /// The process exited, with the code the platform reported, if any.
    Finished { code: Option<i32>, stdout: String, stderr: String },
}

pub open spec fn nonempty_or_none(s: String) -> Option<String> {
    if s@.len() == 0 { None } else { Some(s) }
}

/// The single terminal output event of command `command_id`: it always
/// carries an exit code, `-1` when the process could not be started or ran
/// past its deadline, and in that case a stderr saying why.
pub fn terminal_output(command_id: u128, id: u128, now: Timestamp, outcome: ProcessOutcome) -> (r: BashOutput)
    ensures
        r.id == id,
        r.command_id == command_id,
        r.timestamp == now,
        r.order == 0,
        r.exit_code is Some,
        match outcome {
            ProcessOutcome::SpawnFailed(reason) => r.exit_code == Some(-1i32) && r.stdout is None
                && (r.stderr matches Some(e) && e@ == "Failed to spawn: "@ + reason@),
            ProcessOutcome::TimedOut => r.exit_code == Some(-1i32) && r.stdout is None
                && (r.stderr matches Some(e) && e@ == "Command timed out"@),
            ProcessOutcome::Finished { code, stdout, stderr } => r.exit_code == Some(match code { Some(c) => c, None => -1i32 })
                && r.stdout == nonempty_or_none(stdout) && r.stderr == nonempty_or_none(stderr),
        },
{
    match outcome {
        ProcessOutcome::SpawnFailed(reason) => {
            let mut m: Vec<char> = Vec::new();
            push_str_chars(&mut m, "Failed to spawn: ");
            push_str_chars(&mut m, reason.as_str());
            BashOutput { id, timestamp: now, command_id, order: 0, exit_code: Some(-1), stdout: None, stderr: Some(string_of(&m)) }
        },
        ProcessOutcome::TimedOut => {
            let m = chars_of("Command timed out");
            BashOutput { id, timestamp: now, command_id, order: 0, exit_code: Some(-1), stdout: None, stderr: Some(string_of(&m)) }
        },
        ProcessOutcome::Finished { code, stdout, stderr } => {
            let exit_code = match code { Some(c) => c, None => -1 };
            let out = if stdout.as_str().is_empty() { None } else { Some(stdout) };
            let err = if stderr.as_str().is_empty() { None } else { Some(stderr) };
            BashOutput { id, timestamp: now, command_id, order: 0, exit_code: Some(exit_code), stdout: out, stderr: err }
        },
    }
}

/// The stderr that a timed-out command leaves contains `"timed out"`.
pub proof fn lemma_timeout_reported(r: BashOutput)
    requires
        r.stderr matches Some(e) && e@ == "Command timed out"@,
    ensures
        r.stderr matches Some(e) && e@.subrange(8, 17) == "timed out"@,
{
    reveal_strlit("Command timed out");
    reveal_strlit("timed out");
    let e = r.stderr->0;
    assert(e@.subrange(8, 17) =~= "timed out"@);
}

/// `e` belongs to command `cid`: it is that command, or one of its outputs.
pub open spec fn belongs_to(e: BashEvent, cid: Option<u128>) -> bool {
    match cid {
        None => true,
        Some(c) => match e {
            BashEvent::BashCommand(cmd) => cmd.id == c,
            BashEvent::BashOutput(o) => o.command_id == c,
        },
    }
}

/// The events of `s` that belong to `cid`, in order.
pub open spec fn matching(s: Seq<BashEvent>, cid: Option<u128>) -> Seq<BashEvent>
    decreases s.len(),
{
    if s.len() == 0 {
        Seq::empty()
    } else if belongs_to(s.last(), cid) {
        matching(s.drop_last(), cid).push(s.last())
    } else {
        matching(s.drop_last(), cid)
    }
}

/// No event of `s` is later than one after it.
pub open spec fn sorted_by_time(s: Seq<BashEvent>) -> bool {
    forall|i: int, j: int| 0 <= i < j < s.len() ==> !ts_lt(event_ts(#[trigger] s[j]), event_ts(#[trigger] s[i]))
}

fn belongs(e: &BashEvent, cid: Option<u128>) -> (r: bool)
    ensures
        r == belongs_to(*e, cid),
{
    match cid {
        None => true,
        Some(c) => match e {
            BashEvent::BashCommand(cmd) => cmd.id == c,
            BashEvent::BashOutput(o) => o.command_id == c,
        },
    }
}

proof fn lemma_matching_member(s: Seq<BashEvent>, cid: Option<u128>, i: int)
    requires
        0 <= i < s.len(),
        belongs_to(s[i], cid),
    ensures
        matching(s, cid).len() > 0,
    decreases s.len(),
{
    if i < s.len() - 1 {
        assert(s.drop_last()[i] == s[i]);
        lemma_matching_member(s.drop_last(), cid, i);
    }
}

/// `idx` maps each event of `out` to where it stands in `input`, and
/// events of equal timestamp keep the order they had there.
pub open spec fn stable_by(out: Seq<BashEvent>, input: Seq<BashEvent>, idx: Seq<int>) -> bool {
    &&& idx.len() == out.len()
    &&& forall|i: int| 0 <= i < idx.len() ==> 0 <= idx[i] < input.len() && out[i] == input[idx[i]]
    &&& forall|i: int, j: int| 0 <= i < j < idx.len() && !ts_lt(event_ts(#[trigger] out[i]), event_ts(#[trigger] out[j]))
        ==> idx[i] < idx[j]
}

/// Each event of `out` comes from `input`, and events of equal timestamp
/// appear in `out` in the order they have in `input`.
pub open spec fn stable_order(out: Seq<BashEvent>, input: Seq<BashEvent>) -> bool {
    exists|idx: Seq<int>| stable_by(out, input, idx)
}

proof fn lemma_insert_stable(out: Seq<BashEvent>, input: Seq<BashEvent>, idx: Seq<int>, pos: int, e: BashEvent, k: int)
    requires
        stable_by(out, input, idx),
        forall|i: int| 0 <= i < idx.len() ==> idx[i] < k,
        0 <= k < input.len(),
        input[k] == e,
        0 <= pos <= out.len(),
        sorted_by_time(out),
        pos < out.len() ==> ts_lt(event_ts(e), event_ts(out[pos])),
    ensures
        stable_by(out.insert(pos, e), input, idx.insert(pos, k)),
        forall|i: int| 0 <= i < idx.insert(pos, k).len() ==> idx.insert(pos, k)[i] < k + 1,
{
    out.insert_ensures(pos, e);
    idx.insert_ensures(pos, k);
    let o = out.insert(pos, e);
    let x = idx.insert(pos, k);
    assert forall|i: int| 0 <= i < x.len() implies x[i] == (if i < pos { idx[i] } else if i == pos { k } else { idx[i - 1] })
        && o[i] == (if i < pos { out[i] } else if i == pos { e } else { out[i - 1] }) by {
        if i > pos {
            assert(x[(i - 1) + 1] == idx[i - 1]);
            assert(o[(i - 1) + 1] == out[i - 1]);
        }
    }
    assert forall|i: int| 0 <= i < x.len() implies 0 <= x[i] < input.len() && o[i] == input[x[i]] by {}
    assert forall|i: int, j: int| 0 <= i < j < x.len() && !ts_lt(event_ts(#[trigger] o[i]), event_ts(#[trigger] o[j]))
        implies x[i] < x[j] by {
        if j < pos {
            assert(!ts_lt(event_ts(out[i]), event_ts(out[j])));
        } else if j == pos {
        } else if i < pos {
        } else if i == pos {
            assert(!ts_lt(event_ts(out[j - 1]), event_ts(out[pos])));
        } else {
            assert(!ts_lt(event_ts(out[i - 1]), event_ts(out[j - 1])));
        }
    }
}

proof fn lemma_matching_contains(s: Seq<BashEvent>, cid: Option<u128>, i: int)
    requires
        0 <= i < s.len(),
        belongs_to(s[i], cid),
    ensures
        matching(s, cid).contains(s[i]),
    decreases s.len(),
{
    if i < s.len() - 1 {
        assert(s.drop_last()[i] == s[i]);
        lemma_matching_contains(s.drop_last(), cid, i);
        let m = matching(s.drop_last(), cid);
        let j = choose|j: int| 0 <= j < m.len() && m[j] == s[i];
        if belongs_to(s.last(), cid) {
            assert(m.push(s.last())[j] == s[i]);
        }
    } else {
        let m = matching(s.drop_last(), cid);
        assert(m.push(s.last())[m.len() as int] == s[i]);
    }
}

/// The events of `events` that belong to `command_id` (all of them for
/// `None`), ordered by timestamp; events with equal timestamps keep their
/// order. There is no further page.
pub fn search_events(events: Vec<BashEvent>, command_id: Option<u128>) -> (r: BashEventPage)
    ensures
        r.items@.to_multiset() == matching(events@, command_id).to_multiset(),
        sorted_by_time(r.items@),
        forall|i: int| 0 <= i < r.items@.len() ==> belongs_to(#[trigger] r.items@[i], command_id),
        (exists|i: int| 0 <= i < events@.len() && belongs_to(#[trigger] events@[i], command_id)) ==> r.items@.len() > 0,
        forall|i: int| 0 <= i < events@.len() && belongs_to(#[trigger] events@[i], command_id) ==> r.items@.contains(events@[i]),
        stable_order(r.items@, events@),
        r.next_page_id is None,
{
    let ghost input = events@;
    let ghost idx: Seq<int> = Seq::empty();
    let mut rest = events;
    let mut out: Vec<BashEvent> = Vec::new();
    let mut k: usize = 0;
    let n = rest.len();
    proof {
        assert(rest@.subrange(0, 0) =~= Seq::<BashEvent>::empty());
    }
    while k < n
        invariant
            k <= n == input.len(),
            rest@ == input.subrange(k as int, n as int),
            out@.to_multiset() == matching(input.subrange(0, k as int), command_id).to_multiset(),
            sorted_by_time(out@),
            forall|i: int| 0 <= i < out@.len() ==> belongs_to(#[trigger] out@[i], command_id),
            stable_by(out@, input, idx),
            forall|i: int| 0 <= i < idx.len() ==> idx[i] < k,
        decreases n - k,
    {
        let e = rest.remove(0);
        assert(e == input[k as int]);
        let ghost pre = input.subrange(0, k + 1);
        assert(pre.drop_last() =~= input.subrange(0, k as int));
        assert(rest@ =~= input.subrange(k + 1, n as int));
        if belongs(&e, command_id) {
            let t = e.timestamp();
            let mut pos: usize = 0;
            while pos < out.len() && !t.earlier_than(&out[pos].timestamp())
                invariant
                    pos <= out.len(),
                    t == event_ts(e),
                    forall|i: int| 0 <= i < pos ==> !ts_lt(t, event_ts(#[trigger] out@[i])),
                decreases out.len() - pos,
            {
                pos += 1;
            }
            let ghost old_out = out@;
            proof {
                to_multiset_insert(old_out, pos as int, e);
                to_multiset_build(matching(input.subrange(0, k as int), command_id), e);
                old_out.insert_ensures(pos as int, e);
            }
            out.insert(pos, e);
            assert(out@ == old_out.insert(pos as int, e));
            let ghost old_idx = idx;
            proof {
                lemma_insert_stable(old_out, input, old_idx, pos as int, e, k as int);
                idx = old_idx.insert(pos as int, k as int);
            }
            assert forall|i: int, j: int| 0 <= i < j < out@.len() implies !ts_lt(event_ts(#[trigger] out@[j]), event_ts(#[trigger] out@[i])) by {
                if j < pos {
                } else if j == pos {
                } else if i < pos {
                    assert(out@[j] == old_out[j - 1]);
                    if pos < old_out.len() {
                        assert(!ts_lt(event_ts(old_out[j - 1]), event_ts(old_out[pos as int])));
                    }
                } else if i == pos {
                    assert(out@[j] == old_out[j - 1]);
                    assert(!ts_lt(event_ts(old_out[j - 1]), event_ts(old_out[pos as int])));
                } else {
                    assert(out@[j] == old_out[j - 1]);
                    assert(out@[i] == old_out[i - 1]);
                }
            }
            assert forall|i: int| 0 <= i < out@.len() implies belongs_to(#[trigger] out@[i], command_id) by {
                if i > pos {
                    assert(out@[i] == old_out[i - 1]);
                }
            }
        }
        k += 1;
    }
    assert(input.subrange(0, n as int) =~= input);
    proof {
        if exists|i: int| 0 <= i < input.len() && belongs_to(#[trigger] input[i], command_id) {
            let i = choose|i: int| 0 <= i < input.len() && belongs_to(#[trigger] input[i], command_id);
            lemma_matching_member(input, command_id, i);
            vstd::seq_lib::to_multiset_len(matching(input, command_id));
            vstd::seq_lib::to_multiset_len(out@);
        }
        assert forall|i: int| 0 <= i < input.len() && belongs_to(#[trigger] input[i], command_id) implies out@.contains(input[i]) by {
            lemma_matching_contains(input, command_id, i);
            vstd::seq_lib::to_multiset_contains(matching(input, command_id), input[i]);
            vstd::seq_lib::to_multiset_contains(out@, input[i]);
        }
    }
    BashEventPage { items: out, next_page_id: None }
}


/// `n` in decimal, left-padded with zeros to `w` digits.
pub open spec fn zero_pad(n: nat, w: nat) -> Seq<char> {
    let d = decimal(n);
    if d.len() < w { Seq::new((w - d.len()) as nat, |i: int| '0') + d } else { d }
}

fn push_zero_padded(out: &mut Vec<char>, n: u32, w: usize)
    ensures
        final(out)@ == old(out)@ + zero_pad(n as nat, w as nat),
{
    let mut d: Vec<char> = Vec::new();
    push_decimal(&mut d, n as u128);
    assert(d@ =~= decimal(n as nat));
    if d.len() < w {
        let pad = w - d.len();
        let mut k: usize = 0;
        while k < pad
            invariant
                k <= pad,
                out@ == old(out)@ + Seq::new(k as nat, |i: int| '0'),
            decreases pad - k,
        {
            out.push('0');
            k += 1;
            assert(out@ =~= old(out)@ + Seq::new(k as nat, |i: int| '0'));
        }
    }
    push_all(out, &d);
    assert(out@ =~= old(out)@ + zero_pad(n as nat, w as nat));
}

/// `YYYYMMDDHHMMSS`.
pub open spec fn ts_text(t: Timestamp) -> Seq<char> {
    zero_pad(t.year as nat, 4) + zero_pad(t.month as nat, 2) + zero_pad(t.day as nat, 2)
        + zero_pad(t.hour as nat, 2) + zero_pad(t.minute as nat, 2) + zero_pad(t.second as nat, 2)
}

pub open spec fn hex_char(d: nat) -> char {
    if d < 10 { digit_char_of(d) } else if d == 10 { 'a' } else if d == 11 { 'b' } else if d == 12 { 'c' }
    else if d == 13 { 'd' } else if d == 14 { 'e' } else { 'f' }
}

pub open spec fn digit_char_of(d: nat) -> char {
    crate::text::digit_char(d)
}

/// The last `k` hexadecimal digits of `n`, lowercase, most significant
/// first.
pub open spec fn hex_digits(n: nat, k: nat) -> Seq<char>
    decreases k,
{
    if k == 0 { Seq::empty() } else { hex_digits(n / 16, (k - 1) as nat).push(hex_char(n % 16)) }
}

/// An id as 32 lowercase hex digits without hyphens.
pub open spec fn id_hex(id: u128) -> Seq<char> {
    hex_digits(id as nat, 32)
}

fn hex_of(d: u128) -> (c: char)
    requires
        d < 16,
    ensures
        c == hex_char(d as nat),
{
    if d == 0 { '0' } else if d == 1 { '1' } else if d == 2 { '2' } else if d == 3 { '3' } else if d == 4 { '4' }
    else if d == 5 { '5' } else if d == 6 { '6' } else if d == 7 { '7' } else if d == 8 { '8' } else if d == 9 { '9' }
    else if d == 10 { 'a' } else if d == 11 { 'b' } else if d == 12 { 'c' } else if d == 13 { 'd' } else if d == 14 { 'e' }
    else { 'f' }
}

/// Appends the last `k` hex digits of `n`.
pub fn push_hex(out: &mut Vec<char>, n: u128, k: u32)
    ensures
        final(out)@ == old(out)@ + hex_digits(n as nat, k as nat),
    decreases k,
{
    if k == 0 {
        assert(final(out)@ =~= old(out)@ + hex_digits(n as nat, 0));
    } else {
        push_hex(out, n / 16, k - 1);
        out.push(hex_of(n % 16));
        assert(out@ =~= old(out)@ + hex_digits(n as nat, k as nat));
    }
}

/// The file an event is stored under: its timestamp to the second, its
/// kind, and its ids in hex (a command's own; an output's command id, then
/// its own).
pub open spec fn event_file_name_spec(e: BashEvent) -> Seq<char> {
    match e {
        BashEvent::BashCommand(c) => ts_text(c.timestamp) + "_BashCommand_"@ + id_hex(c.id),
        BashEvent::BashOutput(o) => ts_text(o.timestamp) + "_BashOutput_"@ + id_hex(o.command_id) + "_"@ + id_hex(o.id),
    }
}

fn push_ts(out: &mut Vec<char>, t: Timestamp)
    ensures
        final(out)@ == old(out)@ + ts_text(t),
{
    push_zero_padded(out, t.year, 4);
    push_zero_padded(out, t.month, 2);
    push_zero_padded(out, t.day, 2);
    push_zero_padded(out, t.hour, 2);
    push_zero_padded(out, t.minute, 2);
    push_zero_padded(out, t.second, 2);
    assert(out@ =~= old(out)@ + ts_text(t));
}

/// The name of the file that stores `event`.
pub fn event_file_name(event: &BashEvent) -> (r: String)
    ensures
        r@ == event_file_name_spec(*event),
{
    let mut m: Vec<char> = Vec::new();
    match event {
        BashEvent::BashCommand(c) => {
            push_ts(&mut m, c.timestamp);
            push_str_chars(&mut m, "_BashCommand_");
            push_hex(&mut m, c.id, 32);
        },
        BashEvent::BashOutput(o) => {
            push_ts(&mut m, o.timestamp);
            push_str_chars(&mut m, "_BashOutput_");
            push_hex(&mut m, o.command_id, 32);
            push_str_chars(&mut m, "_");
            push_hex(&mut m, o.id, 32);
        },
    }
    assert(m@ =~= event_file_name_spec(*event));
    string_of(&m)
}

/// The suffix `_<id in hex>` that names the file of the event with id `id`.
pub fn event_name_suffix(id: u128) -> (r: String)
    ensures
        r@ == "_"@ + id_hex(id),
{
    let mut m: Vec<char> = Vec::new();
    push_str_chars(&mut m, "_");
    push_hex(&mut m, id, 32);
    string_of(&m)
}

/// An output's text as the `execute_bash` tool returns it: stdout, then
/// stderr on a line of its own.
pub open spec fn combined_output_spec(o: BashOutput) -> Seq<char> {
    let out = match o.stdout { Some(s) => s@, None => Seq::empty() };
    match o.stderr {
        Some(e) => if out.len() > 0 { out + "\n"@ + e@ } else { e@ },
        None => out,
    }
}

/// The text the `execute_bash` tool returns for `out`.
pub fn combined_output(out: &BashOutput) -> (r: String)
    ensures
        r@ == combined_output_spec(*out),
{
    let mut m: Vec<char> = Vec::new();
    match &out.stdout {
        Some(s) => push_str_chars(&mut m, s.as_str()),
        None => {},
    }
    match &out.stderr {
        Some(e) => {
            if m.len() > 0 {
                push_str_chars(&mut m, "\n");
            }
            push_str_chars(&mut m, e.as_str());
        },
        None => {},
    }
    assert(m@ =~= combined_output_spec(*out));
    string_of(&m)
}

/// An output's text as a remote runtime returns it: stdout, then, when
/// there is stderr, a line break, an `Error output:` heading and stderr.
pub open spec fn remote_output_spec(o: BashOutput) -> Seq<char> {
    let out = match o.stdout { Some(s) => s@, None => Seq::empty() };
    match o.stderr {
        Some(e) => out + "\nError output:\n"@ + e@,
        None => out,
    }
}

/// The text a remote runtime returns for `out`.
pub fn remote_output_text(out: &BashOutput) -> (r: String)
    ensures
        r@ == remote_output_spec(*out),
{
    let mut m: Vec<char> = Vec::new();
    match &out.stdout {
        Some(s) => push_str_chars(&mut m, s.as_str()),
        None => {},
    }
    match &out.stderr {
        Some(e) => {
            push_str_chars(&mut m, "\nError output:\n");
            push_str_chars(&mut m, e.as_str());
        },
        None => {},
    }
    assert(m@ =~= remote_output_spec(*out));
    string_of(&m)
}

/// Polls allowed while waiting for a command's output (at 100 ms each).
pub const MAX_POLL_ATTEMPTS: u32 = 3000;

/// What a waiting caller does after one poll.
#[derive(Debug, Clone)]
pub enum PollStep {
    /// The command's last event is an output: return it.
    Done(BashOutput),
    /// Sleep and poll again; the attempts made so far.
    Wait(u32),
    /// The ceiling was reached.
    GiveUp,
}

/// Decides after poll number `attempts` (counted from 0) that found `items`
/// for the command: an output as the last item ends the wait; otherwise
/// wait again unless the ceiling is passed.
pub fn poll_step(items: &Vec<BashEvent>, attempts: u32) -> (r: PollStep)
    ensures
        items@.len() > 0 && items@.last() is BashOutput ==> (r matches PollStep::Done(o) && items@.last() == BashEvent::BashOutput(o)),
        !(items@.len() > 0 && items@.last() is BashOutput) && attempts + 1 > MAX_POLL_ATTEMPTS ==> r is GiveUp,
        !(items@.len() > 0 && items@.last() is BashOutput) && attempts + 1 <= MAX_POLL_ATTEMPTS ==> r == PollStep::Wait((attempts + 1) as u32),
{
    if items.len() > 0 {
        match &items[items.len() - 1] {
            BashEvent::BashOutput(o) => {
                let c = BashOutput {
                    id: o.id,
                    timestamp: o.timestamp,
                    command_id: o.command_id,
                    order: o.order,
                    exit_code: o.exit_code,
                    stdout: o.stdout.clone(),
                    stderr: o.stderr.clone(),
                };
                return PollStep::Done(c);
            },
            BashEvent::BashCommand(_) => {},
        }
    }
    if attempts >= MAX_POLL_ATTEMPTS {
        PollStep::GiveUp
    } else {
        PollStep::Wait(attempts + 1)
    }
}

/// The output reported when the wait for command `command_id` gives up.
pub fn polling_timed_out(command_id: u128, id: u128, now: Timestamp) -> (r: BashOutput)
    ensures
        r.id == id,
        r.command_id == command_id,
        r.timestamp == now,
        r.order == 0,
        r.exit_code == Some(-1i32),
        r.stdout is None,
        r.stderr matches Some(e) && e@ == "Polling timed out"@,
{
    BashOutput { id, timestamp: now, command_id, order: 0, exit_code: Some(-1), stdout: None, stderr: Some(string_of(&chars_of("Polling timed out"))) }
}

} // verus!
