//! Counters and gauges for server statistics.
use crate::text::{char_of_digit, push_char, u64_to_decimal};
use vstd::prelude::*;

verus! {

/// A monotonically increasing count (it wraps around on overflow).
#[derive(Debug)]
pub struct Counter {
    value: u64,
}

impl View for Counter {
    type V = u64;

    closed spec fn view(&self) -> u64 {
        self.value
    }
}

impl Default for Counter {
    fn default() -> (r: Self)
        ensures
            r@ == 0,
    {
        Counter::new()
    }
}

impl Counter {
    /// A counter at zero.
    pub fn new() -> (r: Self)
        ensures
            r@ == 0,
    {
        Counter { value: 0 }
    }

    /// Adds one.
    pub fn inc(&mut self)
        ensures
            final(self)@ == old(self)@.wrapping_add(1),
    {
        self.value = self.value.wrapping_add(1);
    }

    /// Adds `n`.
    pub fn inc_by(&mut self, n: u64)
        ensures
            final(self)@ == old(self)@.wrapping_add(n),
    {
        self.value = self.value.wrapping_add(n);
    }

    /// The current count.
    pub fn get(&self) -> (r: u64)
        ensures
            r == self@,
    {
        self.value
    }

    /// Sets the count to zero.
    pub fn reset(&mut self)
        ensures
            final(self)@ == 0,
    {
        self.value = 0;
    }
}

/// A value that can go up and down (it wraps around at the ends).
#[derive(Debug)]
pub struct Gauge {
    value: u64,
}

impl View for Gauge {
    type V = u64;

    closed spec fn view(&self) -> u64 {
        self.value
    }
}

impl Default for Gauge {
    fn default() -> (r: Self)
        ensures
            r@ == 0,
    {
        Gauge::new()
    }
}

impl Gauge {
    /// A gauge at zero.
    pub fn new() -> (r: Self)
        ensures
            r@ == 0,
    {
        Gauge { value: 0 }
    }

    /// Sets the value.
    pub fn set(&mut self, value: u64)
        ensures
            final(self)@ == value,
    {
        self.value = value;
    }

    /// The current value.
    pub fn get(&self) -> (r: u64)
        ensures
            r == self@,
    {
        self.value
    }

    /// Adds one.
    pub fn inc(&mut self)
        ensures
            final(self)@ == old(self)@.wrapping_add(1),
    {
        self.value = self.value.wrapping_add(1);
    }

    /// Subtracts one.
    pub fn dec(&mut self)
        ensures
            final(self)@ == old(self)@.wrapping_sub(1),
    {
        self.value = self.value.wrapping_sub(1);
    }
}

/// A gauge raised by one and lowered by one is unchanged, whatever its
/// value (both wrap around).
pub proof fn law_gauge_inc_dec(v: u64)
    ensures
        v.wrapping_add(1).wrapping_sub(1) == v,
{
    if v == u64::MAX {
        assert(v.wrapping_add(1) == 0);
    }
}

/// Connection statistics.
#[derive(Debug)]
pub struct ConnectionMetrics {
    /// Connections accepted.
    pub total_connections: Counter,
    /// Clients connected now.
    pub connected_clients: Gauge,
    /// Connections refused.
    pub rejected_connections: Counter,
    /// Bytes received.
    pub bytes_received: Counter,
    /// Bytes sent.
    pub bytes_sent: Counter,
}

impl Default for ConnectionMetrics {
    fn default() -> (r: Self)
        ensures
            r.total_connections@ == 0,
            r.connected_clients@ == 0,
            r.rejected_connections@ == 0,
            r.bytes_received@ == 0,
            r.bytes_sent@ == 0,
    {
        ConnectionMetrics::new()
    }
}

impl ConnectionMetrics {
    /// All statistics at zero.
    pub fn new() -> (r: Self)
        ensures
            r.total_connections@ == 0,
            r.connected_clients@ == 0,
            r.rejected_connections@ == 0,
            r.bytes_received@ == 0,
            r.bytes_sent@ == 0,
    {
        ConnectionMetrics {
            total_connections: Counter::new(),
            connected_clients: Gauge::new(),
            rejected_connections: Counter::new(),
            bytes_received: Counter::new(),
            bytes_sent: Counter::new(),
        }
    }

    /// A client connected.
    pub fn record_connection(&mut self)
        ensures
            final(self).total_connections@ == old(self).total_connections@.wrapping_add(1),
            final(self).connected_clients@ == old(self).connected_clients@.wrapping_add(1),
            final(self).rejected_connections@ == old(self).rejected_connections@,
            final(self).bytes_received@ == old(self).bytes_received@,
            final(self).bytes_sent@ == old(self).bytes_sent@,
    {
        self.total_connections.inc();
        self.connected_clients.inc();
    }

    /// A client disconnected.
    pub fn record_disconnection(&mut self)
        ensures
            final(self).connected_clients@ == old(self).connected_clients@.wrapping_sub(1),
            final(self).total_connections@ == old(self).total_connections@,
            final(self).rejected_connections@ == old(self).rejected_connections@,
            final(self).bytes_received@ == old(self).bytes_received@,
            final(self).bytes_sent@ == old(self).bytes_sent@,
    {
        self.connected_clients.dec();
    }

    /// A connection was refused.
    pub fn record_rejected(&mut self)
        ensures
            final(self).rejected_connections@ == old(self).rejected_connections@.wrapping_add(1),
            final(self).total_connections@ == old(self).total_connections@,
            final(self).connected_clients@ == old(self).connected_clients@,
            final(self).bytes_received@ == old(self).bytes_received@,
            final(self).bytes_sent@ == old(self).bytes_sent@,
    {
        self.rejected_connections.inc();
    }

    /// `bytes` were received.
    pub fn record_bytes_received(&mut self, bytes: u64)
        ensures
            final(self).bytes_received@ == old(self).bytes_received@.wrapping_add(bytes),
            final(self).total_connections@ == old(self).total_connections@,
            final(self).connected_clients@ == old(self).connected_clients@,
            final(self).rejected_connections@ == old(self).rejected_connections@,
            final(self).bytes_sent@ == old(self).bytes_sent@,
    {
        self.bytes_received.inc_by(bytes);
    }

    /// `bytes` were sent.
    pub fn record_bytes_sent(&mut self, bytes: u64)
        ensures
            final(self).bytes_sent@ == old(self).bytes_sent@.wrapping_add(bytes),
            final(self).total_connections@ == old(self).total_connections@,
            final(self).connected_clients@ == old(self).connected_clients@,
            final(self).rejected_connections@ == old(self).rejected_connections@,
            final(self).bytes_received@ == old(self).bytes_received@,
    {
        self.bytes_sent.inc_by(bytes);
    }

    /// Connections accepted.
    pub fn total_connections(&self) -> (r: u64)
        ensures
            r == self.total_connections@,
    {
        self.total_connections.get()
    }

    /// Clients connected now.
    pub fn connected_clients(&self) -> (r: u64)
        ensures
            r == self.connected_clients@,
    {
        self.connected_clients.get()
    }

    /// Connections refused.
    pub fn rejected_connections(&self) -> (r: u64)
        ensures
            r == self.rejected_connections@,
    {
        self.rejected_connections.get()
    }
}

/// Memory and keyspace statistics.
#[derive(Debug)]
pub struct MemoryMetrics {
    /// Memory in use, in bytes.
    pub used_memory: Gauge,
    /// Largest memory use seen, in bytes.
    pub used_memory_peak: u64,
    /// Memory used by scripts.
    pub used_memory_lua: Gauge,
    /// Keys stored.
    pub total_keys: Gauge,
    /// Keys expired.
    pub expired_keys: Counter,
    /// Keys evicted.
    pub evicted_keys: Counter,
    /// Lookups that found their key.
    pub keyspace_hits: Counter,
    /// Lookups that did not.
    pub keyspace_misses: Counter,
}

impl Default for MemoryMetrics {
    fn default() -> (r: Self)
        ensures
            r.used_memory@ == 0,
            r.used_memory_peak == 0,
            r.keyspace_hits@ == 0,
            r.keyspace_misses@ == 0,
            r.expired_keys@ == 0,
            r.evicted_keys@ == 0,
    {
        MemoryMetrics::new()
    }
}

impl MemoryMetrics {
    /// All statistics at zero.
    pub fn new() -> (r: Self)
        ensures
            r.used_memory@ == 0,
            r.used_memory_peak == 0,
            r.used_memory_lua@ == 0,
            r.total_keys@ == 0,
            r.keyspace_hits@ == 0,
            r.keyspace_misses@ == 0,
            r.expired_keys@ == 0,
            r.evicted_keys@ == 0,
    {
        MemoryMetrics {
            used_memory: Gauge::new(),
            used_memory_peak: 0,
            used_memory_lua: Gauge::new(),
            total_keys: Gauge::new(),
            expired_keys: Counter::new(),
            evicted_keys: Counter::new(),
            keyspace_hits: Counter::new(),
            keyspace_misses: Counter::new(),
        }
    }

    /// Records the memory in use; the peak rises to it if it is larger.
    pub fn set_used_memory(&mut self, bytes: u64)
        ensures
            final(self).used_memory@ == bytes,
            final(self).used_memory_peak == if bytes > old(self).used_memory_peak {
                bytes
            } else {
                old(self).used_memory_peak
            },
            final(self).keyspace_hits@ == old(self).keyspace_hits@,
            final(self).keyspace_misses@ == old(self).keyspace_misses@,
            final(self).expired_keys@ == old(self).expired_keys@,
            final(self).evicted_keys@ == old(self).evicted_keys@,
    {
        self.used_memory.set(bytes);
        if bytes > self.used_memory_peak {
            self.used_memory_peak = bytes;
        }
    }

    /// Memory in use.
    pub fn used_memory(&self) -> (r: u64)
        ensures
            r == self.used_memory@,
    {
        self.used_memory.get()
    }

    /// Largest memory use seen.
    pub fn used_memory_peak(&self) -> (r: u64)
        ensures
            r == self.used_memory_peak,
    {
        self.used_memory_peak
    }

    /// A lookup found its key.
    pub fn record_hit(&mut self)
        ensures
            final(self).keyspace_hits@ == old(self).keyspace_hits@.wrapping_add(1),
            final(self).keyspace_misses@ == old(self).keyspace_misses@,
            final(self).used_memory_peak == old(self).used_memory_peak,
    {
        self.keyspace_hits.inc();
    }

    /// A lookup missed.
    pub fn record_miss(&mut self)
        ensures
            final(self).keyspace_misses@ == old(self).keyspace_misses@.wrapping_add(1),
            final(self).keyspace_hits@ == old(self).keyspace_hits@,
            final(self).used_memory_peak == old(self).used_memory_peak,
    {
        self.keyspace_misses.inc();
    }

    /// A key expired.
    pub fn record_expired(&mut self)
        ensures
            final(self).expired_keys@ == old(self).expired_keys@.wrapping_add(1),
            final(self).keyspace_hits@ == old(self).keyspace_hits@,
            final(self).keyspace_misses@ == old(self).keyspace_misses@,
    {
        self.expired_keys.inc();
    }

    /// A key was evicted.
    pub fn record_evicted(&mut self)
        ensures
            final(self).evicted_keys@ == old(self).evicted_keys@.wrapping_add(1),
            final(self).keyspace_hits@ == old(self).keyspace_hits@,
            final(self).keyspace_misses@ == old(self).keyspace_misses@,
    {
        self.evicted_keys.inc();
    }

    /// A byte count for people to read: `500B`, `1.00K`, `1.50M`, `2.00G`
    /// (see `format_bytes_spec`).
    pub fn format_bytes(bytes: u64) -> (r: String)
        ensures
            r@ == format_bytes_spec(bytes as nat),
    {
        if bytes < 0x400 {
            let mut s = u64_to_decimal(bytes);
            push_char(&mut s, 'B');
            return s;
        }
        let unit: u128 = if bytes >= 0x4000_0000 {
            0x4000_0000
        } else if bytes >= 0x10_0000 {
            0x10_0000
        } else {
            0x400
        };
        let letter = if bytes >= 0x4000_0000 {
            'G'
        } else if bytes >= 0x10_0000 {
            'M'
        } else {
            'K'
        };
        let x = as_double_exec(bytes);
        let h = round_half_even_exec(x * 100, unit);
        let ghost q: int = (x * 100) as int / unit as int;
        assert(q * 0x400 <= q * unit) by (nonlinear_arith)
            requires
                unit >= 0x400,
                q >= 0,
        ;
        with_two_places(h, letter)
    }
}

/// The peak after recording the memory uses `uses`, starting from `peak`.
pub open spec fn peak_after(peak: u64, uses: Seq<u64>) -> u64
    decreases uses.len(),
{
    if uses.len() == 0 {
        peak
    } else {
        let p = peak_after(peak, uses.drop_last());
        if uses.last() > p {
            uses.last()
        } else {
            p
        }
    }
}

/// Whatever memory uses are recorded in turn, the peak never falls and is at
/// least every one of them.
pub proof fn law_peak_memory(peak: u64, uses: Seq<u64>)
    ensures
        peak_after(peak, uses) >= peak,
        forall|i: int| 0 <= i < uses.len() ==> peak_after(peak, uses) >= #[trigger] uses[i],
    decreases uses.len(),
{
    if uses.len() > 0 {
        law_peak_memory(peak, uses.drop_last());
        assert forall|i: int| 0 <= i < uses.len() implies peak_after(peak, uses) >= #[trigger] uses[i] by {
            if i < uses.len() - 1 {
                assert(uses[i] == uses.drop_last()[i]);
            }
        }
    }
}

// ---------------------------------------------------------------------------
// Human-readable byte counts
// ---------------------------------------------------------------------------

/// The gap between neighbouring values that a 53-bit significand can hold
/// around `b`: 1 below 2^53, doubling with each further bit of `b`.
pub open spec fn double_step(b: nat) -> nat
    decreases b,
{
    if b < 0x20_0000_0000_0000 {
        1
    } else {
        2 * double_step(b / 2)
    }
}

/// `n / d` rounded to the nearest whole number, a tie to the even one.
pub open spec fn round_half_even(n: nat, d: nat) -> nat {
    let q = n / d;
    let r = n % d;
    if 2 * r > d || (2 * r == d && q % 2 == 1) {
        q + 1
    } else {
        q
    }
}

/// The value a double-precision float takes for the count `b`: `b` rounded
/// to the nearest multiple of its step, a tie to the even multiple.
pub open spec fn as_double(b: nat) -> nat {
    round_half_even(b, double_step(b)) * double_step(b)
}

/// `b` in units of `unit` (a power of two), in hundredths, rounded to the
/// nearest hundredth, a tie to the even one.
pub open spec fn hundredths(b: nat, unit: nat) -> nat {
    round_half_even(as_double(b) * 100, unit)
}

/// A count of hundredths written with two decimal places.
pub open spec fn two_places(h: nat) -> Seq<char> {
    crate::text::decimal_spec(h / 100) + seq!['.', crate::text::digit_char((h % 100) / 10), crate::text::digit_char(h % 10)]
}

/// A byte count as text: whole bytes below 1024, else kibibytes, mebibytes
/// or gibibytes with two decimal places.
pub open spec fn format_bytes_spec(b: nat) -> Seq<char> {
    if b >= 0x4000_0000 {
        two_places(hundredths(b, 0x4000_0000)) + seq!['G']
    } else if b >= 0x10_0000 {
        two_places(hundredths(b, 0x10_0000)) + seq!['M']
    } else if b >= 0x400 {
        two_places(hundredths(b, 0x400)) + seq!['K']
    } else {
        crate::text::decimal_spec(b) + seq!['B']
    }
}

/// `two_places(h)` followed by `letter`.
fn with_two_places(h: u128, letter: char) -> (r: String)
    requires
        h < 0x1_0000_0000_0000_0000,
    ensures
        r@ == two_places(h as nat) + seq![letter],
{
    let whole = (h / 100) as u64;
    let frac = (h % 100) as u8;
    let mut s = u64_to_decimal(whole);
    push_char(&mut s, '.');
    push_char(&mut s, char_of_digit(frac / 10));
    push_char(&mut s, char_of_digit(frac % 10));
    push_char(&mut s, letter);
    s
}

/// `n / d` rounded to the nearest whole number, a tie to the even one.
fn round_half_even_exec(n: u128, d: u128) -> (r: u128)
    requires
        d > 0,
        n < 0x8000_0000_0000_0000_0000_0000_0000_0000,
    ensures
        r == round_half_even(n as nat, d as nat),
        r <= n / d + 1,
        (n / d) * d <= n,
{
    let q = n / d;
    let rem = n % d;
    assert((n / d) * d <= n) by (nonlinear_arith)
        requires
            d > 0,
    ;
    if rem > d - rem || (rem == d - rem && q % 2 == 1) {
        q + 1
    } else {
        q
    }
}

/// `as_double(b)`: `b` rounded as a conversion to a double-precision float
/// rounds it.
fn as_double_exec(b: u64) -> (r: u128)
    ensures
        r == as_double(b as nat),
        r <= 0x2_0000_0000_0000_0000,
{
    let mut t: u64 = b;
    let mut step: u128 = 1;
    while t >= 0x20_0000_0000_0000
        invariant
            double_step(b as nat) == step * double_step(t as nat),
            1 <= step <= 0x1000,
            t as int * step as int <= b as int,
        decreases t,
    {
        let ghost d = double_step((t / 2) as nat);
        assert(step * 0x20_0000_0000_0000 <= t as int * step as int) by (nonlinear_arith)
            requires
                t >= 0x20_0000_0000_0000,
                step >= 1,
        ;
        assert(step * (2 * d) == (step * 2) * d) by (nonlinear_arith);
        assert((t / 2) as int * (step * 2) as int <= t as int * step as int) by (nonlinear_arith)
            requires
                step >= 1,
        ;
        t = t / 2;
        step = step * 2;
    }
    assert(double_step(t as nat) == 1);
    assert(step * double_step(t as nat) == step) by (nonlinear_arith)
        requires
            double_step(t as nat) == 1,
    ;
    let k = round_half_even_exec(b as u128, step);
    let q = b as u128 / step;
    assert(k * step <= q * step + step) by (nonlinear_arith)
        requires
            k <= q + 1,
    ;
    k * step
}

} // verus!
