//! Byte budgets and the bounded queue that holds response bytes before they are sent.

use vstd::prelude::*;
use super::selection::result_view;

verus! {

/// The memory that one stream may hold.
#[derive(Clone, Copy, Debug, PartialEq, Eq, Structural)]
pub struct StreamBudget {
    pub limit: usize,
    pub live: usize,
}

impl StreamBudget {
    pub open spec fn wf(self) -> bool {
        self.live <= self.limit
    }

    /// Whether another `bytes` bytes fit.
    pub open spec fn fits(self, bytes: int) -> bool {
        self.live + bytes <= self.limit
    }

    /// The budget with another `bytes` bytes held.
    pub open spec fn holding(self, bytes: int) -> StreamBudget {
        StreamBudget { limit: self.limit, live: (self.live + bytes) as usize }
    }

    pub fn new(limit: usize) -> (r: Self)
        ensures
            r.wf(),
            r == (StreamBudget { limit, live: 0 }),
    {
        StreamBudget { limit, live: 0 }
    }

    pub fn reserve(&mut self, bytes: usize) -> (r: Result<(), String>)
        requires
            old(self).wf(),
        ensures
            final(self).wf(),
            result_view(r) == reserve_result(*old(self), bytes as int),
            *final(self) == (if old(self).fits(bytes as int) {
                old(self).holding(bytes as int)
            } else {
                *old(self)
            }),
    {
        if bytes > self.limit - self.live {
            return Err("stream memory budget exceeded".to_owned());
        }
        self.live = self.live + bytes;
        Ok(())
    }

    pub fn release(&mut self, bytes: usize)
        requires
            old(self).wf(),
            bytes <= old(self).live,
        ensures
            final(self).wf(),
            *final(self) == old(self).holding(-bytes),
    {
        self.live = self.live - bytes;
    }
}

pub open spec fn reserve_result(budget: StreamBudget, bytes: int) -> Result<(), Seq<char>> {
    if budget.fits(bytes) {
        Ok(())
    } else {
        Err("stream memory budget exceeded"@)
    }
}

/// All bytes of a sequence of chunks, in order.
pub open spec fn flat(chunks: Seq<Seq<u8>>) -> Seq<u8>
    decreases chunks.len(),
{
    if chunks.len() == 0 {
        Seq::empty()
    } else {
        chunks[0] + flat(chunks.skip(1))
    }
}

/// A text of bytes cut into chunks of `quantum` bytes; only the last may be shorter.
pub open spec fn cut(bytes: Seq<u8>, quantum: nat) -> Seq<Seq<u8>>
    decreases bytes.len(),
{
    if bytes.len() == 0 || quantum == 0 {
        Seq::empty()
    } else if bytes.len() <= quantum {
        seq![bytes]
    } else {
        seq![bytes.take(quantum as int)] + cut(bytes.skip(quantum as int), quantum)
    }
}

/// Cutting loses nothing, and no chunk is empty or longer than the quantum.
pub proof fn cut_is_lossless(bytes: Seq<u8>, quantum: nat)
    requires
        quantum > 0,
    ensures
        flat(cut(bytes, quantum)) == bytes,
        forall|i: int|
            0 <= i < cut(bytes, quantum).len() ==> 0 < (#[trigger] cut(bytes, quantum)[i]).len()
                <= quantum,
    decreases bytes.len(),
{
    let chunks = cut(bytes, quantum);
    if bytes.len() == 0 {
    } else if bytes.len() <= quantum {
        assert(chunks.skip(1) == Seq::<Seq<u8>>::empty());
        assert(flat(chunks.skip(1)) == Seq::<u8>::empty());
        assert(bytes + Seq::<u8>::empty() == bytes);
    } else {
        let rest = bytes.skip(quantum as int);
        cut_is_lossless(rest, quantum);
        assert(chunks.skip(1) == cut(rest, quantum));
        assert(bytes.take(quantum as int) + rest == bytes);
        assert forall|i: int| 0 <= i < chunks.len() implies 0 < (#[trigger] chunks[i]).len()
            <= quantum by {
            if i > 0 {
                assert(chunks[i] == cut(rest, quantum)[i - 1]);
            }
        }
    }
}

/// Joining two sequences of chunks joins their bytes.
pub proof fn flat_joins(a: Seq<Seq<u8>>, b: Seq<Seq<u8>>)
    ensures
        flat(a + b) == flat(a) + flat(b),
    decreases a.len(),
{
    if a.len() == 0 {
        assert(a + b == b);
        assert(flat(a) + flat(b) == flat(b));
    } else {
        flat_joins(a.skip(1), b);
        assert((a + b).skip(1) == a.skip(1) + b);
        assert((a + b)[0] == a[0]);
        assert(a[0] + (flat(a.skip(1)) + flat(b)) == (a[0] + flat(a.skip(1))) + flat(b));
    }
}

/// The bytes of the chunks of a queue.
pub open spec fn chunk_views(chunks: Seq<Vec<u8>>) -> Seq<Seq<u8>> {
    chunks.map_values(|chunk: Vec<u8>| chunk@)
}

pub struct QueueView {
    pub chunks: Seq<Seq<u8>>,
    pub max_chunk_bytes: usize,
    pub max_bytes: usize,
}

/// Response bytes that wait to be sent, in chunks no longer than one transport frame.
#[derive(Debug)]
pub struct BodyQueue {
    pub chunks: Vec<Vec<u8>>,
    pub bytes: usize,
    pub max_chunk_bytes: usize,
    pub max_bytes: usize,
}

impl View for BodyQueue {
    type V = QueueView;

    open spec fn view(&self) -> QueueView {
        QueueView {
            chunks: chunk_views(self.chunks@),
            max_chunk_bytes: self.max_chunk_bytes,
            max_bytes: self.max_bytes,
        }
    }
}

impl QueueView {
    pub open spec fn wf(self) -> bool {
        &&& self.max_chunk_bytes > 0
        &&& flat(self.chunks).len() <= self.max_bytes
    }

    /// How many chunks of `bytes` both the queue and the budget still take.
    pub open spec fn accepted(self, budget: StreamBudget, chunks: Seq<Seq<u8>>) -> nat
        decreases chunks.len(),
    {
        if chunks.len() == 0 {
            0
        } else {
            let n = chunks[0].len() as int;
            if !budget.fits(n) || flat(self.chunks).len() + n > self.max_bytes {
                0
            } else {
                1 + QueueView { chunks: self.chunks.push(chunks[0]), ..self }.accepted(
                    budget.holding(n),
                    chunks.skip(1),
                )
            }
        }
    }

    /// The queue with some chunks more at its end.
    pub open spec fn with(self, chunks: Seq<Seq<u8>>) -> QueueView {
        QueueView { chunks: self.chunks + chunks, ..self }
    }

    /// The queue and the budget once `bytes` was pushed: all its chunks, or those before the
    /// first that does not fit.
    pub open spec fn pushed(self, budget: StreamBudget, bytes: Seq<u8>) -> (
        Result<(), Seq<char>>,
        QueueView,
        StreamBudget,
    ) {
        let chunks = cut(bytes, self.max_chunk_bytes as nat);
        let taken = self.accepted(budget, chunks) as int;
        let queue = self.with(chunks.take(taken));
        let held = budget.holding(flat(chunks.take(taken)).len() as int);
        if taken == chunks.len() {
            (Ok(()), queue, held)
        } else if !held.fits(chunks[taken].len() as int) {
            (Err("stream memory budget exceeded"@), queue, held)
        } else {
            (Err("response body queue limit exceeded"@), queue, held)
        }
    }
}

impl BodyQueue {
    /// The counted bytes are those of the chunks.
    pub open spec fn wf(self) -> bool {
        &&& self@.wf()
        &&& self.bytes == flat(self@.chunks).len()
    }

    pub fn new(max_chunk_bytes: usize, max_bytes: usize) -> (r: Self)
        requires
            max_chunk_bytes > 0,
        ensures
            r.wf(),
            r@ == (QueueView { chunks: Seq::empty(), max_chunk_bytes, max_bytes }),
    {
        let chunks: Vec<Vec<u8>> = Vec::new();
        assert(chunk_views(chunks@) == Seq::<Seq<u8>>::empty());
        BodyQueue { chunks, bytes: 0, max_chunk_bytes, max_bytes }
    }

    pub fn len(&self) -> (r: usize)
        ensures
            r == self@.chunks.len(),
    {
        self.chunks.len()
    }

    /// Takes the first chunk.
    pub fn pop_front(&mut self) -> (r: Option<Vec<u8>>)
        requires
            old(self).wf(),
        ensures
            final(self).wf(),
            final(self)@.max_chunk_bytes == old(self)@.max_chunk_bytes,
            final(self)@.max_bytes == old(self)@.max_bytes,
            match r {
                Some(chunk) => {
                    &&& old(self)@.chunks.len() > 0
                    &&& chunk@ == old(self)@.chunks[0]
                    &&& final(self)@.chunks == old(self)@.chunks.skip(1)
                },
                None => old(self)@.chunks.len() == 0 && final(self)@ == old(self)@,
            },
    {
        if self.chunks.len() == 0 {
            return None;
        }
        let ghost before = self@.chunks;
        let chunk = self.chunks.remove(0);
        proof {
            assert(chunk_views(self.chunks@) == before.skip(1));
            assert(flat(before) == before[0] + flat(before.skip(1)));
        }
        self.bytes = self.bytes - chunk.len();
        Some(chunk)
    }

    /// Drops all chunks and gives their bytes back to the budget.
    pub fn clear_and_release(&mut self, budget: &mut StreamBudget)
        requires
            old(self).wf(),
            old(budget).wf(),
            flat(old(self)@.chunks).len() <= old(budget).live,
        ensures
            final(self).wf(),
            final(self)@ == (QueueView { chunks: Seq::empty(), ..old(self)@ }),
            final(budget).wf(),
            *final(budget) == old(budget).holding(-(flat(old(self)@.chunks).len() as int)),
    {
        budget.release(self.bytes);
        self.chunks = Vec::new();
        self.bytes = 0;
        assert(chunk_views(self.chunks@) == Seq::<Seq<u8>>::empty());
    }

    /// Charges one chunk and appends it.
    fn push_back(&mut self, budget: &mut StreamBudget, chunk: Vec<u8>) -> (r: Result<(), String>)
        requires
            old(self).wf(),
            old(budget).wf(),
        ensures
            final(self).wf(),
            final(budget).wf(),
            ({
                let n = chunk@.len() as int;
                if !old(budget).fits(n) {
                    &&& result_view(r) == Err::<(), _>("stream memory budget exceeded"@)
                    &&& final(self)@ == old(self)@
                    &&& *final(budget) == *old(budget)
                } else if flat(old(self)@.chunks).len() + n > old(self)@.max_bytes {
                    &&& result_view(r) == Err::<(), _>("response body queue limit exceeded"@)
                    &&& final(self)@ == old(self)@
                    &&& *final(budget) == *old(budget)
                } else {
                    &&& r is Ok
                    &&& final(self)@ == old(self)@.with(seq![chunk@])
                    &&& *final(budget) == old(budget).holding(n)
                }
            }),
    {
        match budget.reserve(chunk.len()) {
            Ok(()) => {},
            Err(error) => return Err(error),
        }
        if chunk.len() > self.max_bytes - self.bytes {
            budget.release(chunk.len());
            return Err("response body queue limit exceeded".to_owned());
        }
        let ghost before = self@.chunks;
        self.bytes = self.bytes + chunk.len();
        self.chunks.push(chunk);
        proof {
            assert(chunk_views(self.chunks@) == before + seq![chunk@]);
            flat_joins(before, seq![chunk@]);
            assert(seq![chunk@].skip(1) == Seq::<Seq<u8>>::empty());
            assert(flat(seq![chunk@].skip(1)) == Seq::<u8>::empty());
            assert(flat(seq![chunk@]) == chunk@ + Seq::<u8>::empty());
        }
        Ok(())
    }
}

/// Appends bytes to a queue in chunks of one transport frame, each charged to the budget.
pub fn push_queue_bytes(queue: &mut BodyQueue, budget: &mut StreamBudget, bytes: &[u8]) -> (r:
    Result<(), String>)
    requires
        old(queue).wf(),
        old(budget).wf(),
    ensures
        final(queue).wf(),
        final(budget).wf(),
        (result_view(r), final(queue)@, *final(budget)) == old(queue)@.pushed(
            *old(budget),
            bytes@,
        ),
{
    let quantum: usize = queue.max_chunk_bytes;
    let ghost all = cut(bytes@, quantum as nat);
    let ghost first = queue@;
    let ghost start = *budget;
    let mut at: usize = 0;
    let ghost mut done: int = 0;
    proof {
        assert(bytes@.skip(0) == bytes@);
        assert(all.skip(0) == all);
        assert(all.take(0) == Seq::<Seq<u8>>::empty());
        assert(first.with(all.take(0)).chunks == first.chunks);
        assert(flat(all.take(0)).len() == 0);
    }
    while at < bytes.len()
        invariant
            at <= bytes.len(),
            quantum == queue.max_chunk_bytes,
            quantum > 0,
            queue.wf(),
            budget.wf(),
            all == cut(bytes@, quantum as nat),
            0 <= done <= all.len(),
            all.skip(done) == cut(bytes@.skip(at as int), quantum as nat),
            queue@ == first.with(all.take(done)),
            *budget == start.holding(flat(all.take(done)).len() as int),
            start.live + flat(all.take(done)).len() <= start.limit,
            first == old(queue)@,
            start == *old(budget),
            first.accepted(start, all) == done + queue@.accepted(*budget, all.skip(done)),
        decreases bytes.len() - at,
    {
        let left: usize = bytes.len() - at;
        let n: usize = if left <= quantum {
            left
        } else {
            quantum
        };
        let piece = vstd::slice::slice_subrange(bytes, at, at + n);
        let chunk = vstd::slice::slice_to_vec(piece);
        let ghost rest = bytes@.skip(at as int);
        let ghost tail = all.skip(done);
        proof {
            assert(chunk@ == rest.take(n as int));
            if left <= quantum {
                assert(rest.take(n as int) == rest);
                assert(tail == seq![rest]);
                assert(rest.skip(n as int).len() == 0);
                assert(tail.skip(1) == Seq::<Seq<u8>>::empty());
            } else {
                assert(tail == seq![rest.take(n as int)] + cut(rest.skip(n as int), quantum as nat));
                assert(tail.skip(1) == cut(rest.skip(n as int), quantum as nat));
            }
            assert(tail[0] == chunk@);
            assert(all[done] == chunk@);
            assert(rest.skip(n as int) == bytes@.skip(at + n));
            assert(tail.skip(1) == all.skip(done + 1));
            assert(all.take(done + 1) == all.take(done) + seq![chunk@]);
            flat_joins(all.take(done), seq![chunk@]);
            assert(seq![chunk@].skip(1) == Seq::<Seq<u8>>::empty());
            assert(flat(seq![chunk@].skip(1)) == Seq::<u8>::empty());
            assert(flat(seq![chunk@]) == chunk@ + Seq::<u8>::empty());
            assert(chunk@ + Seq::<u8>::empty() == chunk@);
            assert(first.with(all.take(done)).with(seq![chunk@]).chunks == first.with(
                all.take(done + 1),
            ).chunks);
        }
        let ghost was = queue@;
        match queue.push_back(budget, chunk) {
            Ok(()) => {},
            Err(error) => {
                assert(was.accepted(*budget, tail) == 0);
                return Err(error);
            },
        }
        proof {
            assert(was.chunks.push(chunk@) == was.chunks + seq![chunk@]);
            done = done + 1;
        }
        at = at + n;
    }
    proof {
        assert(bytes@.skip(at as int).len() == 0);
        assert(all.skip(done).len() == 0);
        assert(all.take(done) == all);
    }
    Ok(())
}

/// How far `n` lies above `power`.
pub open spec fn left_to(power: int, n: int) -> int {
    if n > power {
        n - power
    } else {
        0
    }
}

/// The least power of two that is at least `n`, counting up from `power`.
pub open spec fn power_from(power: nat, n: nat) -> nat
    decreases left_to(power as int, n as int),
{
    if power >= n || power == 0 {
        power
    } else {
        power_from(2 * power, n)
    }
}

/// The least power of two that is at least `n`.
pub open spec fn next_power(n: nat) -> nat {
    power_from(1, n)
}

fn checked_next_power(n: usize) -> (r: Option<usize>)
    ensures
        r == (if next_power(n as nat) <= usize::MAX {
            Some(next_power(n as nat) as usize)
        } else {
            None
        }),
        next_power(n as nat) >= n,
{
    let mut power: usize = 1;
    while power < n
        invariant
            power >= 1,
            next_power(n as nat) == power_from(power as nat, n as nat),
        decreases left_to(power as int, n as int),
    {
        proof {
            lemma_power_from_reaches((2 * power) as nat, n as nat);
        }
        power = match power.checked_mul(2) {
            Some(double) => double,
            None => return None,
        };
    }
    Some(power)
}

proof fn lemma_power_from_reaches(power: nat, n: nat)
    requires
        power > 0,
    ensures
        power_from(power, n) >= n,
        power_from(power, n) >= power,
    decreases left_to(power as int, n as int),
{
    if power < n {
        lemma_power_from_reaches(2 * power, n);
    }
}

/// The most charges that a decoder budget ever makes.
pub open spec fn max_charge_steps() -> int {
    usize::BITS + 1
}

/// Shadow account of what the native decoder may retain before the response is committed.
#[derive(Debug)]
pub struct PrecommitDecoderBudget {
    pub ceiling: usize,
    pub raw_bytes: usize,
    pub charged_bytes: usize,
    pub charges: Vec<usize>,
    pub metadata_bytes: usize,
}

pub struct DecoderBudgetView {
    pub ceiling: usize,
    pub raw_bytes: usize,
    pub charged_bytes: usize,
    pub charges: Seq<usize>,
    pub metadata_bytes: usize,
}

impl View for PrecommitDecoderBudget {
    type V = DecoderBudgetView;

    open spec fn view(&self) -> DecoderBudgetView {
        DecoderBudgetView {
            ceiling: self.ceiling,
            raw_bytes: self.raw_bytes,
            charged_bytes: self.charged_bytes,
            charges: self.charges@,
            metadata_bytes: self.metadata_bytes,
        }
    }
}

/// What a vector of `raw` live bytes can retain at most.
pub open spec fn retained_bound(raw: nat) -> nat {
    if raw == 0 {
        0
    } else {
        2 * raw + 8
    }
}

pub open spec fn power_of_two(k: nat) -> nat
    decreases k,
{
    if k == 0 {
        1
    } else {
        2 * power_of_two((k - 1) as nat)
    }
}

/// The sum of charges.
pub open spec fn total(charges: Seq<usize>) -> nat
    decreases charges.len(),
{
    if charges.len() == 0 {
        0
    } else {
        total(charges.drop_last()) + charges.last() as nat
    }
}

impl DecoderBudgetView {
    /// The charge covers what the decoder can retain, and is the sum of the charges made. Every
    /// charge but the last takes the account to a power of two, so the charges stay few.
    pub open spec fn wf(self) -> bool {
        let m = self.charges.len();
        &&& self.raw_bytes <= self.ceiling
        &&& self.charged_bytes >= retained_bound(self.raw_bytes as nat)
        &&& self.charged_bytes == total(self.charges)
        &&& m == 0 ==> self.charged_bytes == 0
        &&& m > 0 ==> {
            ||| self.charged_bytes >= power_of_two((m - 1) as nat)
            ||| self.charged_bytes == 2 * self.ceiling + 8 && m > 1 && self.charged_bytes
                >= power_of_two((m - 2) as nat)
        }
        &&& m > 0 && self.charged_bytes != 2 * self.ceiling + 8 ==> self.charged_bytes
            >= power_of_two((m - 1) as nat)
    }

    /// The account once the target is charged.
    pub open spec fn next_charge(self, target: nat) -> nat {
        let most = 2 * self.ceiling as nat + 8;
        if next_power(target) <= usize::MAX && next_power(target) < most {
            next_power(target)
        } else {
            most
        }
    }

    /// What charging one more frame of `bytes` bytes comes to.
    pub open spec fn charged(self, budget: StreamBudget, bytes: usize) -> (
        Result<(), Seq<char>>,
        DecoderBudgetView,
        StreamBudget,
    ) {
        let raw = (self.raw_bytes + bytes) as nat;
        let target = retained_bound(raw);
        if raw > usize::MAX {
            (Err("native precommit decoder byte limit overflow"@), self, budget)
        } else if raw > self.ceiling {
            (Err("native precommit decoder byte limit exceeded"@), self, budget)
        } else if target > usize::MAX {
            (Err("native precommit decoder charge overflow"@), self, budget)
        } else if target <= self.charged_bytes {
            (Ok(()), DecoderBudgetView { raw_bytes: raw as usize, ..self }, budget)
        } else if 2 * self.ceiling + 8 > usize::MAX {
            (Err("native precommit decoder charge overflow"@), self, budget)
        } else {
            let next = self.next_charge(target);
            let more = next - self.charged_bytes;
            if budget.fits(more) {
                (
                    Ok(()),
                    DecoderBudgetView {
                        raw_bytes: raw as usize,
                        charged_bytes: next as usize,
                        charges: self.charges.push(more as usize),
                        ..self
                    },
                    budget.holding(more),
                )
            } else {
                (Err("stream memory budget exceeded"@), self, budget)
            }
        }
    }
}

/// The account never needs more charges than its metadata was reserved for.
pub proof fn charges_stay_within_metadata(account: DecoderBudgetView)
    requires
        account.wf(),
    ensures
        account.charges.len() <= max_charge_steps(),
{
    let m = account.charges.len();
    if m > max_charge_steps() {
        lemma_power_exceeds_usize((m - 2) as nat);
        lemma_power_exceeds_usize((m - 1) as nat);
    }
}

proof fn lemma_power_exceeds_usize(k: nat)
    requires
        k >= usize::BITS,
    ensures
        power_of_two(k) > usize::MAX,
    decreases k,
{
    if k > usize::BITS {
        lemma_power_exceeds_usize((k - 1) as nat);
    } else {
        lemma_power_by_bytes(0);
        lemma_power_by_bytes(8);
        lemma_power_by_bytes(16);
        lemma_power_by_bytes(24);
        assert(power_of_two(0) == 1);
        if usize::BITS == 64 {
            lemma_power_by_bytes(32);
            lemma_power_by_bytes(40);
            lemma_power_by_bytes(48);
            lemma_power_by_bytes(56);
        }
    }
}

proof fn lemma_power_by_bytes(k: nat)
    ensures
        power_of_two(k + 8) == 256 * power_of_two(k),
{
    reveal_with_fuel(power_of_two, 9);
}

proof fn lemma_power_from_doubles(power: nat, n: nat, k: nat)
    requires
        power == power_of_two(k),
        power > 0,
    ensures
        exists|j: nat| j >= k && power_from(power, n) == #[trigger] power_of_two(j),
    decreases left_to(power as int, n as int),
{
    if power < n {
        assert(power_of_two(k + 1) == 2 * power);
        lemma_power_from_doubles(2 * power, n, k + 1);
    } else {
        assert(power_of_two(k) == power_from(power, n));
    }
}

proof fn lemma_powers_grow(a: nat, b: nat)
    requires
        a <= b,
    ensures
        0 < power_of_two(a) <= power_of_two(b),
    decreases b,
{
    if a < b {
        lemma_powers_grow(a, (b - 1) as nat);
    } else if a > 0 {
        lemma_powers_grow((a - 1) as nat, (a - 1) as nat);
    }
}

proof fn lemma_power_above(low: nat, n: nat, m: nat)
    requires
        low >= power_of_two(m),
        n > low,
    ensures
        next_power(n) >= power_of_two(m + 1),
{
    assert(power_of_two(0) == 1);
    lemma_power_from_reaches(1, n);
    lemma_power_from_doubles(1, n, 0);
    let j = choose|j: nat| next_power(n) == #[trigger] power_of_two(j);
    if j < m + 1 {
        lemma_powers_grow(j, m);
    } else {
        lemma_powers_grow(m + 1, j);
    }
}

impl PrecommitDecoderBudget {
    /// An empty account. `reservation_bytes` is what the record of one charge takes.
    pub fn new(budget: &mut StreamBudget, ceiling: usize, reservation_bytes: usize) -> (r: Result<
        Self,
        String,
    >)
        requires
            old(budget).wf(),
        ensures
            final(budget).wf(),
            ({
                let metadata = max_charge_steps() * reservation_bytes;
                if metadata > usize::MAX {
                    &&& r matches Err(error) && error@
                        == "native decoder metadata budget overflow"@
                    &&& *final(budget) == *old(budget)
                } else if !old(budget).fits(metadata) {
                    &&& r matches Err(error) && error@ == "stream memory budget exceeded"@
                    &&& *final(budget) == *old(budget)
                } else {
                    &&& r matches Ok(account)
                    &&& account@ == (DecoderBudgetView {
                        ceiling,
                        raw_bytes: 0,
                        charged_bytes: 0,
                        charges: Seq::empty(),
                        metadata_bytes: metadata as usize,
                    })
                    &&& account@.wf()
                    &&& *final(budget) == old(budget).holding(metadata)
                }
            }),
    {
        let steps: usize = usize::BITS as usize + 1;
        let metadata_bytes = match steps.checked_mul(reservation_bytes) {
            Some(bytes) => bytes,
            None => return Err("native decoder metadata budget overflow".to_owned()),
        };
        match budget.reserve(metadata_bytes) {
            Ok(()) => {},
            Err(error) => return Err(error),
        }
        Ok(
            PrecommitDecoderBudget {
                ceiling,
                raw_bytes: 0,
                charged_bytes: 0,
                charges: Vec::new(),
                metadata_bytes,
            },
        )
    }

    /// Charges one more frame before the decoder may copy it.
    pub fn charge_frame(&mut self, budget: &mut StreamBudget, bytes: usize) -> (r: Result<
        (),
        String,
    >)
        requires
            old(self)@.wf(),
            old(budget).wf(),
        ensures
            final(self)@.wf(),
            final(budget).wf(),
            (result_view(r), final(self)@, *final(budget)) == old(self)@.charged(
                *old(budget),
                bytes,
            ),
    {
        let raw_bytes = match self.raw_bytes.checked_add(bytes) {
            Some(sum) => sum,
            None => return Err("native precommit decoder byte limit overflow".to_owned()),
        };
        if raw_bytes > self.ceiling {
            return Err("native precommit decoder byte limit exceeded".to_owned());
        }
        let target: usize = if raw_bytes == 0 {
            0
        } else {
            match raw_bytes.checked_mul(2) {
                Some(double) => match double.checked_add(8) {
                    Some(sum) => sum,
                    None => return Err("native precommit decoder charge overflow".to_owned()),
                },
                None => return Err("native precommit decoder charge overflow".to_owned()),
            }
        };
        if target > self.charged_bytes {
            let most: usize = match self.ceiling.checked_mul(2) {
                Some(double) => match double.checked_add(8) {
                    Some(sum) => sum,
                    None => return Err("native precommit decoder charge overflow".to_owned()),
                },
                None => return Err("native precommit decoder charge overflow".to_owned()),
            };
            let next: usize = match checked_next_power(target) {
                Some(power) => if power < most {
                    power
                } else {
                    most
                },
                None => most,
            };
            let ghost was = self@;
            proof {
                let m = was.charges.len();
                if m > 0 {
                    if was.charged_bytes >= power_of_two((m - 1) as nat) {
                        lemma_power_above(was.charged_bytes as nat, target as nat, (m - 1) as nat);
                    }
                } else {
                    lemma_power_from_reaches(1, target as nat);
                    assert(power_of_two(0) == 1);
                }
            }
            let more: usize = next - self.charged_bytes;
            match budget.reserve(more) {
                Ok(()) => {},
                Err(error) => return Err(error),
            }
            self.charges.push(more);
            self.charged_bytes = next;
            proof {
                assert(self.charges@.drop_last() == was.charges);
            }
        }
        self.raw_bytes = raw_bytes;
        Ok(())
    }
}

} // verus!
