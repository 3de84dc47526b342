use vstd::prelude::*;

use crate::plugin_api::{
    inclusive_range_ok, splice, AutoReloadType, HexeratorHandle, MethodParam, MethodResult,
    PluginMethod, PluginSourceProviderParams, Value, ValueTy,
};
use crate::text::{joined, owned, str_eq};

verus! {

/// The example plugin: it greets, fills the selection, sums a range and serves
/// generated bytes as a data source.
pub struct HelloPlugin {
    /// How many source reads the plugin has served.
    pub i: usize,
}

/// The methods that the plugin answers to.
pub enum MethodKind {
    SayHello,
    FillSelection,
    SumRange,
    Unknown,
}

/// Which method a call by name reaches.
pub open spec fn method_kind(name: Seq<char>) -> MethodKind {
    if name == "say_hello"@ {
        MethodKind::SayHello
    } else if name == "fill_selection"@ {
        MethodKind::FillSelection
    } else if name == "sum_range"@ {
        MethodKind::SumRange
    } else {
        MethodKind::Unknown
    }
}

/// The range that `sum_range` is called with: exactly two parameters, both `u64`.
pub open spec fn sum_range_args(params: Seq<Option<Value>>) -> Option<(u64, u64)> {
    if params.len() == 2 {
        match (params[0], params[1]) {
            (Some(Value::U64(from)), Some(Value::U64(to))) => Some((from, to)),
            _ => None,
        }
    } else {
        None
    }
}

/// The sum of a sequence of bytes.
pub open spec fn byte_sum(s: Seq<u8>) -> nat
    decreases s.len(),
{
    if s.len() == 0 {
        0
    } else {
        byte_sum(s.drop_last()) + s.last() as nat
    }
}

/// A sequence of `n` copies of `b`.
pub open spec fn repeated(b: u8, n: nat) -> Seq<u8> {
    Seq::new(n, |_k: int| b)
}

/// The byte that the fill method writes.
pub open spec fn fill_byte() -> u8 {
    0x42
}

/// The number of bytes that one read of the whole source gives.
pub open spec fn contents_len() -> nat {
    100_000
}

/// Byte `v` of the whole source, read when the plugin has served `i` reads.
pub open spec fn contents_byte(i: usize, v: int) -> u8 {
    ((v + (i as u32)) % 100) as u8
}

/// Byte `k` of a buffer filled from offset `lo` on, read when the plugin has served `i` reads.
pub open spec fn exact_byte(i: usize, lo: int, k: int) -> u8 {
    ((k + (k - lo) + i) % 100) as u8
}

/// The number of reads served after one more stream read: it counts up to 100 and stays.
pub open spec fn stream_next(i: int) -> int {
    if i == 100 {
        100
    } else {
        i + 1
    }
}

/// How many bytes a stream read gives: one, until 100 reads have been served.
pub open spec fn stream_read_len(i: int) -> int {
    if i == 100 {
        0
    } else {
        1
    }
}

/// The number of reads served after `k` more stream reads.
pub open spec fn stream_after(i: int, k: nat) -> int
    decreases k,
{
    if k == 0 {
        i
    } else {
        stream_after(stream_next(i), (k - 1) as nat)
    }
}

/// Sums bytes, wrapping around at 2^64 as `u64` addition does.
fn sum_bytes(data: &[u8]) -> (r: u64)
    ensures
        r as int == byte_sum(data@) % 0x1_0000_0000_0000_0000,
{
    let n = data.len();
    let mut sum: u64 = 0;
    let mut k: usize = 0;
    while k < n
        invariant
            n == data@.len(),
            k <= n,
            sum as int == byte_sum(data@.take(k as int)) % 0x1_0000_0000_0000_0000,
        decreases n - k,
    {
        let b = data[k];
        proof {
            assert(data@.take(k + 1).drop_last() =~= data@.take(k as int));
            vstd::arithmetic::div_mod::lemma_add_mod_noop(
                byte_sum(data@.take(k as int)) as int,
                b as int,
                0x1_0000_0000_0000_0000,
            );
            vstd::arithmetic::div_mod::lemma_small_mod(b as nat, 0x1_0000_0000_0000_0000);
            vstd::arithmetic::div_mod::lemma_mod_twice(
                byte_sum(data@.take(k as int)) as int,
                0x1_0000_0000_0000_0000,
            );
        }
        sum = sum.wrapping_add(b as u64);
        k += 1;
    }
    assert(data@.take(n as int) =~= data@);
    sum
}

/// Writes `b` into every byte of `data`.
fn fill_with(data: &mut [u8], b: u8)
    ensures
        final(data)@ == repeated(b, old(data)@.len()),
{
    let n = data.len();
    let mut k: usize = 0;
    while k < n
        invariant
            n == data@.len(),
            k <= n,
            forall|j: int| 0 <= j < k ==> data@[j] == b,
        decreases n - k,
    {
        data[k] = b;
        k += 1;
    }
    assert(data@ =~= repeated(b, n as nat));
}

/// The range that `sum_range` was called with, if the parameters are two `u64` values.
pub fn sum_range_params(params: &[Option<Value>]) -> (r: Option<(u64, u64)>)
    ensures
        r == sum_range_args(params@),
{
    if params.len() != 2 {
        return None;
    }
    match (&params[0], &params[1]) {
        (Some(Value::U64(from)), Some(Value::U64(to))) => Some((*from, *to)),
        _ => None,
    }
}

/// What `fill_selection` answers once the host has handed over the selected bytes, or has
/// found the selection out of bounds: the bytes are filled with 0x42.
pub fn fill_selection_result(data: Option<&mut [u8]>) -> (r: MethodResult)
    ensures
        match data {
            Some(d) => {
                &&& r matches Ok(None)
                &&& final(d)@ == repeated(fill_byte(), d@.len())
            },
            None => r matches Err(m) && m@ == "Selection out of bounds"@,
        },
{
    match data {
        Some(d) => {
            fill_with(d, 0x42);
            Ok(None)
        },
        None => Err(owned("Selection out of bounds")),
    }
}

/// What `sum_range` answers once the host has handed over the bytes of the range, or has
/// found the range out of bounds: the sum of the bytes, wrapping around at 2^64.
pub fn sum_range_result(data: Option<&[u8]>) -> (r: MethodResult)
    ensures
        match data {
            Some(d) => r matches Ok(Some(Value::U64(n))) && n as int == byte_sum(d@)
                % 0x1_0000_0000_0000_0000,
            None => r matches Err(m) && m@ == "Out of bounds"@,
        },
{
    match data {
        Some(d) => Ok(Some(Value::U64(sum_bytes(d)))),
        None => Err(owned("Out of bounds")),
    }
}

impl HelloPlugin {
    pub fn name(&self) -> (r: &'static str)
        ensures
            r@ == "Hello world plugin"@,
    {
        "Hello world plugin"
    }

    pub fn desc(&self) -> (r: &'static str)
        ensures
            r@ == "Hi! I'm an example plugin for Hexerator"@,
    {
        "Hi! I'm an example plugin for Hexerator"
    }

    /// The methods the plugin offers: `say_hello` and `fill_selection` without parameters,
    /// `sum_range` with the two `u64` parameters `from` and `to`.
    pub fn methods(&self) -> (r: Vec<PluginMethod>)
        ensures
            r@.len() == 3,
            r@[0].method_name@ == "say_hello"@,
            r@[0].human_name matches Some(h) && h@ == "Say hello"@,
            r@[0].desc@ == "Write 'hello' to debug log."@,
            r@[0].params@.len() == 0,
            r@[1].method_name@ == "fill_selection"@,
            r@[1].human_name matches Some(h) && h@ == "Fill selection"@,
            r@[1].desc@ == "Fills the selection with 0x42"@,
            r@[1].params@.len() == 0,
            r@[2].method_name@ == "sum_range"@,
            r@[2].human_name is None,
            r@[2].desc@ == "Sums up the values in the provided range"@,
            r@[2].params@.len() == 2,
            r@[2].params@[0].name@ == "from"@,
            r@[2].params@[0].ty is U64,
            r@[2].params@[1].name@ == "to"@,
            r@[2].params@[1].ty is U64,
    {
        let mut v: Vec<PluginMethod> = Vec::new();
        v.push(PluginMethod {
            method_name: "say_hello",
            human_name: Some("Say hello"),
            desc: "Write 'hello' to debug log.",
            params: &[],
        });
        v.push(PluginMethod {
            method_name: "fill_selection",
            human_name: Some("Fill selection"),
            desc: "Fills the selection with 0x42",
            params: &[],
        });
        v.push(PluginMethod {
            method_name: "sum_range",
            human_name: None,
            desc: "Sums up the values in the provided range",
            params: &[
                MethodParam { name: "from", ty: ValueTy::U64 },
                MethodParam { name: "to", ty: ValueTy::U64 },
            ],
        });
        v
    }

    /// The plugin serves as a one-shot source named `hello_world`, neither a stream nor
    /// writable nor savable.
    pub fn source_provider_params(&self) -> (r: Option<PluginSourceProviderParams>)
        ensures
            r matches Some(p) && {
                &&& p.human_name@ == "hello_world"@
                &&& !p.is_stream
                &&& !p.is_writable
                &&& !p.is_savable
                &&& p.auto_reload_type is OneShot
            },
    {
        Some(PluginSourceProviderParams {
            human_name: "hello_world",
            is_stream: false,
            is_writable: false,
            is_savable: false,
            auto_reload_type: AutoReloadType::OneShot,
        })
    }

    /// Calls the method `name` against the host: `say_hello` logs a greeting,
    /// `fill_selection` writes 0x42 over the selection, `sum_range` sums the bytes
    /// `from..=to`. Each fails with its message when the host has no such selection or range.
    pub fn on_method_called<H: HexeratorHandle + ?Sized>(
        &mut self,
        name: &str,
        params: &[Option<Value>],
        hexerator: &mut H,
    ) -> (r: MethodResult)
        ensures
            final(self).i == old(self).i,
            final(hexerator).handle_selection() == old(hexerator).handle_selection(),
            final(hexerator).handle_rest() == old(hexerator).handle_rest(),
            final(hexerator).handle_log() == if method_kind(name@) is SayHello {
                old(hexerator).handle_log().push("Hello world!"@)
            } else {
                old(hexerator).handle_log()
            },
            match method_kind(name@) {
                MethodKind::SayHello => {
                    &&& r matches Ok(None)
                    &&& final(hexerator).handle_data() == old(hexerator).handle_data()
                },
                MethodKind::FillSelection => match old(hexerator).handle_selection() {
                    None => {
                        &&& r matches Err(m) && m@ == "Selection unavailable"@
                        &&& final(hexerator).handle_data() == old(hexerator).handle_data()
                    },
                    Some((start, end)) => if inclusive_range_ok(
                        start,
                        end,
                        old(hexerator).handle_data().len(),
                    ) {
                        &&& r matches Ok(None)
                        &&& final(hexerator).handle_data() == splice(
                            old(hexerator).handle_data(),
                            start as int,
                            end as int,
                            repeated(fill_byte(), (end + 1 - start) as nat),
                        )
                    } else {
                        &&& r matches Err(m) && m@ == "Selection out of bounds"@
                        &&& final(hexerator).handle_data() == old(hexerator).handle_data()
                    },
                },
                MethodKind::SumRange => {
                    &&& final(hexerator).handle_data() == old(hexerator).handle_data()
                    &&& match sum_range_args(params@) {
                        None => r matches Err(m) && m@ == "Invalid params"@,
                        Some((from, to)) => if inclusive_range_ok(
                            from as usize,
                            to as usize,
                            old(hexerator).handle_data().len(),
                        ) {
                            r matches Ok(Some(Value::U64(n))) && n as int == byte_sum(
                                old(hexerator).handle_data().subrange(
                                    from as usize as int,
                                    to as usize + 1,
                                ),
                            ) % 0x1_0000_0000_0000_0000
                        } else {
                            r matches Err(m) && m@ == "Out of bounds"@
                        },
                    }
                },
                MethodKind::Unknown => {
                    &&& r matches Err(m) && m@ == "Unknown method: "@ + name@
                    &&& final(hexerator).handle_data() == old(hexerator).handle_data()
                },
            },
    {
        if str_eq(name, "say_hello") {
            hexerator.debug_log("Hello world!");
            Ok(None)
        } else if str_eq(name, "fill_selection") {
            match hexerator.selection_range() {
                Some((start, end)) => fill_selection_result(hexerator.get_data_mut(start, end)),
                None => Err(owned("Selection unavailable")),
            }
        } else if str_eq(name, "sum_range") {
            match sum_range_params(params) {
                Some((from, to)) => match hexerator.get_data_mut(from as usize, to as usize) {
                    Some(data) => sum_range_result(Some(&*data)),
                    None => sum_range_result(None),
                },
                None => Err(owned("Invalid params")),
            }
        } else {
            Err(joined("Unknown method: ", name))
        }
    }

    /// The whole source: 100 000 bytes counting up modulo 100 from the number of reads served.
    pub fn sp_read_contents(&mut self) -> (r: std::io::Result<Vec<u8>>)
        requires
            old(self).i < usize::MAX,
            (old(self).i as u32) + 99_999 <= u32::MAX,
        ensures
            final(self).i == old(self).i + 1,
            r matches Ok(o) && o@.len() == contents_len() && forall|v: int|
                0 <= v < contents_len() ==> #[trigger] o@[v] == contents_byte(old(self).i, v),
    {
        let len = 100_000u32;
        let base = self.i as u32;
        let mut o: Vec<u8> = Vec::new();
        let mut v: u32 = 0;
        while v < len
            invariant
                v <= len,
                len == 100_000,
                base == self.i as u32,
                base + 99_999 <= u32::MAX,
                o@.len() == v,
                forall|w: int| 0 <= w < v ==> #[trigger] o@[w] == contents_byte(self.i, w),
            decreases len - v,
        {
            o.push(((v + base) % 100) as u8);
            v += 1;
        }
        self.i += 1;
        Ok(o)
    }

    /// Fills `buf` from offset `lo` on; the bytes before `lo` stay as they were.
    pub fn sp_read_exact(&mut self, lo: usize, buf: &mut [u8]) -> (r: std::io::Result<()>)
        requires
            old(self).i < usize::MAX,
            lo < old(buf)@.len() ==> (old(buf)@.len() - 1) + (old(buf)@.len() - 1 - lo)
                + old(self).i <= usize::MAX,
        ensures
            r is Ok,
            final(self).i == old(self).i + 1,
            final(buf)@.len() == old(buf)@.len(),
            forall|k: int|
                0 <= k < old(buf)@.len() ==> #[trigger] final(buf)@[k] == if k < lo {
                    old(buf)@[k]
                } else {
                    exact_byte(old(self).i, lo as int, k)
                },
    {
        let n = buf.len();
        if lo < n {
            let mut j: usize = 0;
            while j < n - lo
                invariant
                    lo < n,
                    n == buf@.len(),
                    n == old(buf)@.len(),
                    j <= n - lo,
                    (n - 1) + (n - 1 - lo) + self.i <= usize::MAX,
                    forall|k: int|
                        0 <= k < n ==> #[trigger] buf@[k] == if lo <= k < lo + j {
                            exact_byte(self.i, lo as int, k)
                        } else {
                            old(buf)@[k]
                        },
                decreases n - lo - j,
            {
                let v = lo + j;
                buf[lo + j] = ((v + j + self.i) % 100) as u8;
                j += 1;
            }
        }
        self.i += 1;
        Ok(())
    }

    /// One step of the stream: the number of reads served goes into `buf[0]`; after 100
    /// reads the stream reports its end (0 bytes) and no longer advances.
    pub fn sp_read_stream(&mut self, buf: &mut [u8]) -> (r: std::io::Result<usize>)
        requires
            old(buf)@.len() > 0,
            old(self).i != 100 ==> old(self).i < usize::MAX,
        ensures
            final(buf)@ == old(buf)@.update(0, old(self).i as u8),
            final(self).i == stream_next(old(self).i as int),
            r matches Ok(n) && n == stream_read_len(old(self).i as int),
    {
        buf[0] = self.i as u8;
        if self.i == 100 {
            return Ok(0);
        }
        self.i += 1;
        Ok(1)
    }
}

/// A stream started at `i <= 100` reads served serves one byte per read, counting up, until
/// 100 reads have been served; from then on every read reports the end of the stream.
pub proof fn lemma_stream_counts_to_end(i: int, k: nat)
    requires
        0 <= i <= 100,
    ensures
        k <= 100 - i ==> stream_after(i, k) == i + k,
        k < 100 - i ==> stream_read_len(stream_after(i, k)) == 1,
        k >= 100 - i ==> stream_after(i, k) == 100 && stream_read_len(stream_after(i, k)) == 0,
    decreases k,
{
    if k > 0 {
        lemma_stream_counts_to_end(stream_next(i), (k - 1) as nat);
    }
}

/// Summing the selection right after `fill_selection` has filled it gives the fill byte
/// times the length of the selection.
pub proof fn lemma_sum_after_fill(data: Seq<u8>, start: usize, end: usize)
    requires
        inclusive_range_ok(start, end, data.len()),
    ensures
        byte_sum(
            splice(
                data,
                start as int,
                end as int,
                repeated(fill_byte(), (end + 1 - start) as nat),
            ).subrange(start as int, end + 1),
        ) == fill_byte() * (end + 1 - start),
{
    let n = (end + 1 - start) as nat;
    let filled = splice(data, start as int, end as int, repeated(fill_byte(), n));
    assert(filled.subrange(start as int, end + 1) =~= repeated(fill_byte(), n));
    lemma_byte_sum_repeated(fill_byte(), n);
}

/// The sum of `n` copies of `b` is `b * n`.
pub proof fn lemma_byte_sum_repeated(b: u8, n: nat)
    ensures
        byte_sum(repeated(b, n)) == b * n,
    decreases n,
{
    if n > 0 {
        let m = (n - 1) as nat;
        assert(repeated(b, n).drop_last() =~= repeated(b, m));
        assert(repeated(b, n).last() == b);
        lemma_byte_sum_repeated(b, m);
        assert(byte_sum(repeated(b, n)) == byte_sum(repeated(b, m)) + b);
        assert(b * m + b == b * n) by (nonlinear_arith)
            requires
                m + 1 == n,
        ;
    } else {
        assert(b * n == 0) by (nonlinear_arith)
            requires
                n == 0,
        ;
    }
}

/// Every method that the plugin lists is one that it answers: calling it by its listed name
/// reaches that method, and `sum_range` accepts the two `u64` parameters it lists.
pub proof fn lemma_listed_methods_are_answered(from: u64, to: u64)
    ensures
        method_kind("say_hello"@) is SayHello,
        method_kind("fill_selection"@) is FillSelection,
        method_kind("sum_range"@) is SumRange,
        sum_range_args(seq![Some(Value::U64(from)), Some(Value::U64(to))]) == Some((from, to)),
{
    reveal_strlit("say_hello");
    reveal_strlit("fill_selection");
    reveal_strlit("sum_range");
    assert("fill_selection"@[0] != "say_hello"@[0]);
    assert("sum_range"@[1] != "say_hello"@[1]);
    assert("sum_range"@[0] != "fill_selection"@[0]);
}

/// From one whole-source read to the next, every byte counts up by one modulo 100.
pub proof fn lemma_contents_advance(i: usize, v: int)
    requires
        i < usize::MAX,
        (i as u32) < u32::MAX,
        0 <= v,
    ensures
        contents_byte((i + 1) as usize, v) == (contents_byte(i, v) + 1) % 100,
{
    let j = (i + 1) as usize;
    let a = i as u32;
    assert(j as u32 == a + 1) by (bit_vector)
        requires
            j == i + 1,
            a == i as u32,
            a < 0xffff_ffffu32,
    ;
    vstd::arithmetic::div_mod::lemma_add_mod_noop(v + a, 1, 100);
}

/// The bytes that `sp_read_exact` writes from offset `lo` on are below 100: the first is
/// `(lo + i) % 100` and each next one is two more, modulo 100, computed on unbounded
/// integers.
pub proof fn lemma_exact_bytes_step_by_two(i: usize, lo: int, k: int)
    requires
        0 <= lo <= k,
    ensures
        exact_byte(i, lo, lo) as int == (lo + i) % 100,
        exact_byte(i, lo, k) < 100,
        exact_byte(i, lo, k) as int == (2 * k - lo + i) % 100,
        exact_byte(i, lo, k + 1) as int == (exact_byte(i, lo, k) + 2) % 100,
{
    vstd::arithmetic::div_mod::lemma_add_mod_noop(2 * k - lo + i, 2, 100);
    vstd::arithmetic::div_mod::lemma_small_mod(2, 100);
}

/// The bytes of a whole-source read are below 100, count up by one from `i` (as `u32`)
/// modulo 100, computed on unbounded integers.
pub proof fn lemma_contents_count_up(i: usize, v: int)
    requires
        0 <= v,
    ensures
        contents_byte(i, 0) as int == (i as u32) as int % 100,
        contents_byte(i, v) < 100,
        contents_byte(i, v + 1) as int == (contents_byte(i, v) + 1) % 100,
{
    vstd::arithmetic::div_mod::lemma_add_mod_noop(v + (i as u32), 1, 100);
    vstd::arithmetic::div_mod::lemma_small_mod(1, 100);
}

/// Sums of bytes add up over concatenation, and a sum is at most 255 per byte.
pub proof fn lemma_byte_sum_concat(a: Seq<u8>, b: Seq<u8>)
    ensures
        byte_sum(a + b) == byte_sum(a) + byte_sum(b),
        byte_sum(a) <= 255 * a.len(),
    decreases b.len(), a.len(),
{
    if b.len() == 0 {
        assert(a + b =~= a);
    } else {
        assert((a + b).drop_last() =~= a + b.drop_last());
        assert((a + b).last() == b.last());
        lemma_byte_sum_concat(a, b.drop_last());
    }
    if a.len() > 0 {
        lemma_byte_sum_concat(a.drop_last(), Seq::empty());
    }
}

/// The sum of one byte is that byte.
pub proof fn lemma_byte_sum_single(b: u8)
    ensures
        byte_sum(seq![b]) == b,
{
    assert(seq![b].drop_last() =~= Seq::<u8>::empty());
    assert(seq![b].last() == b);
    assert(byte_sum(Seq::<u8>::empty()) == 0);
}

} // verus!
