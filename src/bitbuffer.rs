use vstd::prelude::*;

verus! {

/// `2^n`.
pub open spec fn pow2(n: nat) -> nat
    decreases n,
{
    if n == 0 {
        1
    } else {
        2 * pow2((n - 1) as nat)
    }
}

/// The `w` low-order bits of `v`, least significant first.
pub open spec fn low_bits(v: nat, w: nat) -> Seq<bool>
    decreases w,
{
    if w == 0 {
        seq![]
    } else {
        seq![v % 2 == 1] + low_bits(v / 2, (w - 1) as nat)
    }
}

/// The number whose bits, least significant first, are `s`.
pub open spec fn bits_value(s: Seq<bool>) -> nat
    decreases s.len(),
{
    if s.len() == 0 {
        0
    } else {
        (if s[0] { 1nat } else { 0nat }) + 2 * bits_value(s.drop_first())
    }
}

/// `n` zero bits.
pub open spec fn zeros(n: nat) -> Seq<bool> {
    Seq::new(n, |i: int| false)
}

/// Byte serialisation of a bit queue: the queue read as one number (oldest bit least
/// significant), written big-endian in as few bytes as hold it. The leading byte holds the
/// leftover bits (the newest, partial group) in its low-order positions, its high bits zero;
/// the full groups follow it newest first, so that taken from the end, as
/// [`bits_of_bytes`] takes them, they come in arrival order. Full groups oldest first from
/// the front could not be read back: with no bit count, a reader cannot tell a partial
/// leading byte from a full group (the queue `A B` of two full groups and the queue `B`
/// followed by seven bits of `A < 128` would both give the bytes `A, B`).
pub open spec fn bytes_of_bits(s: Seq<bool>) -> Seq<u8>
    decreases s.len(),
{
    if s.len() == 0 {
        seq![]
    } else if s.len() <= 8 {
        seq![bits_value(s) as u8]
    } else {
        bytes_of_bits(s.subrange(8, s.len() as int)) + seq![bits_value(s.take(8)) as u8]
    }
}

/// The bit queue that a byte string deserialises to: the last byte's eight bits first, then
/// the byte before it, and so on.
pub open spec fn bits_of_bytes(d: Seq<u8>) -> Seq<bool>
    decreases d.len(),
{
    if d.len() == 0 {
        seq![]
    } else {
        bits_of_bytes(d.drop_first()) + low_bits(d[0] as nat, 8)
    }
}

pub proof fn lemma_low_bits_len(v: nat, w: nat)
    ensures
        low_bits(v, w).len() == w,
    decreases w,
{
    if w > 0 {
        lemma_low_bits_len(v / 2, (w - 1) as nat);
    }
}

pub proof fn lemma_bits_value_bound(s: Seq<bool>)
    ensures
        bits_value(s) < pow2(s.len()),
    decreases s.len(),
{
    if s.len() > 0 {
        lemma_bits_value_bound(s.drop_first());
    }
}

/// Reading `w` bits back from the low bits of a value below `2^w` gives that value.
pub proof fn lemma_value_of_low_bits(v: nat, w: nat)
    requires
        v < pow2(w),
    ensures
        bits_value(low_bits(v, w)) == v,
    decreases w,
{
    if w > 0 {
        let s = low_bits(v, w);
        assert(s.drop_first() =~= low_bits(v / 2, (w - 1) as nat));
        lemma_value_of_low_bits(v / 2, (w - 1) as nat);
    }
}

/// The low `w` bits of the value of a queue of at most `w` bits are the queue, padded with
/// zeros.
pub proof fn lemma_low_bits_of_value(s: Seq<bool>, w: nat)
    requires
        s.len() <= w,
    ensures
        low_bits(bits_value(s), w) =~= s + zeros((w - s.len()) as nat),
    decreases w,
{
    if w > 0 {
        if s.len() == 0 {
            lemma_low_bits_of_value(s, (w - 1) as nat);
            assert(low_bits(0, w) =~= seq![false] + low_bits(0, (w - 1) as nat));
        } else {
            let v = bits_value(s);
            assert(v % 2 == 1 <==> s[0]);
            assert(v / 2 == bits_value(s.drop_first()));
            lemma_low_bits_of_value(s.drop_first(), (w - 1) as nat);
            assert(s =~= seq![s[0]] + s.drop_first());
        }
    }
}

/// Deserialising concatenated bytes gives the later bytes' bits first.
pub proof fn lemma_bits_of_bytes_append(a: Seq<u8>, b: Seq<u8>)
    ensures
        bits_of_bytes(a + b) =~= bits_of_bytes(b) + bits_of_bytes(a),
    decreases a.len(),
{
    if a.len() == 0 {
        assert(a + b =~= b);
    } else {
        assert((a + b).drop_first() =~= a.drop_first() + b);
        lemma_bits_of_bytes_append(a.drop_first(), b);
    }
}

/// Serialising and deserialising gives the queue back, followed by at most seven zero bits.
pub proof fn lemma_bytes_round_trip(s: Seq<bool>)
    ensures
        exists|p: nat| p < 8 && bits_of_bytes(bytes_of_bits(s)) =~= s + zeros(p),
        bytes_of_bits(s).len() == (s.len() + 7) / 8,
    decreases s.len(),
{
    if s.len() == 0 {
        assert(bits_of_bytes(bytes_of_bits(s)) =~= s + zeros(0));
    } else if s.len() <= 8 {
        lemma_bits_value_bound(s);
        lemma_pow2_mono(s.len(), 8);
        lemma_pow2_8();
        let b = bits_value(s) as u8;
        assert(b as nat == bits_value(s));
        assert(seq![b].drop_first() =~= Seq::<u8>::empty());
        assert(bytes_of_bits(s) == seq![b]);
        assert(bits_of_bytes(Seq::<u8>::empty()) == Seq::<bool>::empty());
        assert(bits_of_bytes(seq![b]) =~= low_bits(b as nat, 8));
        lemma_low_bits_of_value(s, 8);
        let p = (8 - s.len()) as nat;
        assert(bits_of_bytes(bytes_of_bits(s)) =~= s + zeros(p));
    } else {
        let rest = s.subrange(8, s.len() as int);
        let head = s.take(8);
        lemma_bytes_round_trip(rest);
        let p = choose|p: nat| p < 8 && bits_of_bytes(bytes_of_bits(rest)) =~= rest + zeros(p);
        lemma_bits_value_bound(head);
        lemma_pow2_8();
        let b = bits_value(head) as u8;
        assert(b as nat == bits_value(head));
        assert(s =~= head + rest);
        lemma_bits_of_bytes_append(bytes_of_bits(rest), seq![b]);
        assert(seq![b].drop_first() =~= Seq::<u8>::empty());
        assert(bytes_of_bits(s) == bytes_of_bits(rest) + seq![b]);
        assert(bits_of_bytes(Seq::<u8>::empty()) == Seq::<bool>::empty());
        assert(bits_of_bytes(seq![b]) =~= low_bits(b as nat, 8));
        lemma_low_bits_of_value(head, 8);
        assert(bits_of_bytes(bytes_of_bits(s)) =~= s + zeros(p));
    }
}

pub proof fn lemma_pow2_8()
    ensures
        pow2(8) == 256,
{
    reveal_with_fuel(pow2, 9);
}

pub proof fn lemma_pow2_mono(a: nat, b: nat)
    requires
        a <= b,
    ensures
        pow2(a) <= pow2(b),
    decreases b,
{
    if a < b {
        lemma_pow2_mono(a, (b - 1) as nat);
    }
}

/// The bits queued by appending each `(value, width)` entry in order.
pub open spec fn entries_bits(e: Seq<(u8, u8)>) -> Seq<bool>
    decreases e.len(),
{
    if e.len() == 0 {
        seq![]
    } else {
        low_bits(e[0].0 as nat, e[0].1 as nat) + entries_bits(e.drop_first())
    }
}

/// The bits of consecutive runs of entries follow each other.
pub proof fn lemma_entries_bits_append(a: Seq<(u8, u8)>, b: Seq<(u8, u8)>)
    ensures
        entries_bits(a + b) =~= entries_bits(a) + entries_bits(b),
    decreases a.len(),
{
    if a.len() == 0 {
        assert(a + b =~= b);
    } else {
        assert((a + b).drop_first() =~= a.drop_first() + b);
        lemma_entries_bits_append(a.drop_first(), b);
    }
}

/// The values that reading the widths `ws` in order from `bits` returns.
pub open spec fn reads(bits: Seq<bool>, ws: Seq<u8>) -> Seq<nat>
    decreases ws.len(),
{
    if ws.len() == 0 {
        seq![]
    } else {
        seq![bits_value(bits.take(ws[0] as int))] + reads(bits.skip(ws[0] as int), ws.drop_first())
    }
}

/// Every entry's value fits in its width, and no width exceeds a byte.
pub open spec fn entries_fit(e: Seq<(u8, u8)>) -> bool {
    forall|i: int| 0 <= i < e.len() ==> e[i].1 <= 8 && (e[i].0 as nat) < pow2(e[i].1 as nat)
}

proof fn lemma_reads_entries(e: Seq<(u8, u8)>, z: Seq<bool>)
    requires
        entries_fit(e),
    ensures
        reads(entries_bits(e) + z, e.map_values(|x: (u8, u8)| x.1)) =~= e.map_values(
            |x: (u8, u8)| x.0 as nat,
        ),
    decreases e.len(),
{
    let ws = e.map_values(|x: (u8, u8)| x.1);
    if e.len() > 0 {
        let (v, w) = e[0];
        let head = low_bits(v as nat, w as nat);
        let rest = entries_bits(e.drop_first());
        lemma_low_bits_len(v as nat, w as nat);
        lemma_value_of_low_bits(v as nat, w as nat);
        assert((head + rest + z).take(w as int) =~= head);
        assert((head + rest + z).skip(w as int) =~= rest + z);
        assert(ws.drop_first() =~= e.drop_first().map_values(|x: (u8, u8)| x.1));
        assert(entries_fit(e.drop_first())) by {
            assert forall|i: int| 0 <= i < e.drop_first().len() implies e.drop_first()[i].1 <= 8
                && (e.drop_first()[i].0 as nat) < pow2(e.drop_first()[i].1 as nat) by {
                assert(e.drop_first()[i] == e[i + 1]);
            }
        }
        lemma_reads_entries(e.drop_first(), z);
        assert(head + rest + z =~= entries_bits(e) + z);
    }
}

/// Appending values of the given widths, serialising to bytes, deserialising, and reading
/// the same widths back in order gives the values back.
pub proof fn lemma_bitbuffer_law(e: Seq<(u8, u8)>)
    requires
        entries_fit(e),
    ensures
        reads(
            bits_of_bytes(bytes_of_bits(entries_bits(e))),
            e.map_values(|x: (u8, u8)| x.1),
        ) == e.map_values(|x: (u8, u8)| x.0 as nat),
{
    lemma_bytes_round_trip(entries_bits(e));
    let p = choose|p: nat|
        p < 8 && bits_of_bytes(bytes_of_bits(entries_bits(e))) =~= entries_bits(e) + zeros(p);
    lemma_reads_entries(e, zeros(p));
}

/// The reason a read from a [`BitBuffer`] fails.
#[derive(Clone, Copy, Debug, PartialEq, Eq, Structural)]
pub enum BitBufferError {
    /// Fewer bits remain than were asked for.
    Underflow,
}

/// A first-in, first-out queue of bits.
#[derive(Clone, Debug)]
pub struct BitBuffer {
    bits: Vec<bool>,
    pos: usize,
}

impl View for BitBuffer {
    type V = Seq<bool>;

    /// The bits still queued, oldest first.
    closed spec fn view(&self) -> Seq<bool> {
        self.bits@.subrange(self.pos as int, self.bits@.len() as int)
    }
}

impl BitBuffer {
    pub closed spec fn wf(&self) -> bool {
        self.pos <= self.bits@.len()
    }

    pub fn new() -> (r: Self)
        ensures
            r.wf(),
            r@ == Seq::<bool>::empty(),
    {
        let r = BitBuffer { bits: Vec::new(), pos: 0 };
        assert(r@ =~= Seq::<bool>::empty());
        r
    }

    /// Queues the `length` low-order bits of `data`, least significant first.
    pub fn add(&mut self, data: u8, length: u8)
        requires
            old(self).wf(),
            length <= 8,
        ensures
            final(self).wf(),
            final(self)@ == old(self)@ + low_bits(data as nat, length as nat),
    {
        let mut d: u8 = data;
        let mut i: u8 = 0;
        assert(old(self)@ + low_bits(data as nat, length as nat) =~= self@ + low_bits(
            d as nat,
            (length - i) as nat,
        ));
        while i < length
            invariant
                self.wf(),
                i <= length,
                old(self)@ + low_bits(data as nat, length as nat) == self@ + low_bits(
                    d as nat,
                    (length - i) as nat,
                ),
            decreases length - i,
        {
            let ghost before = self@;
            let bit = d % 2 == 1;
            self.bits.push(bit);
            assert(self@ =~= before.push(bit));
            assert(low_bits(d as nat, (length - i) as nat) == seq![bit] + low_bits(
                (d / 2) as nat,
                (length - i - 1) as nat,
            ));
            assert(before + low_bits(d as nat, (length - i) as nat) =~= self@ + low_bits(
                (d / 2) as nat,
                (length - i - 1) as nat,
            ));
            d = d / 2;
            i = i + 1;
        }
        assert(low_bits(d as nat, 0) =~= Seq::<bool>::empty());
        assert(self@ + low_bits(d as nat, 0) =~= self@);
    }

    /// Queues one bit.
    pub fn add_bit(&mut self, data: bool)
        requires
            old(self).wf(),
        ensures
            final(self).wf(),
            final(self)@ == old(self)@.push(data),
    {
        self.bits.push(data);
        assert(self@ =~= old(self)@.push(data));
    }

    /// The value of the bits at `start..end` of the underlying storage, the bit at `start`
    /// least significant.
    fn pack(&self, start: usize, end: usize) -> (r: u8)
        requires
            self.wf(),
            self.pos <= start <= end <= self.bits@.len(),
            end - start <= 8,
        ensures
            r as nat == bits_value(self.bits@.subrange(start as int, end as int)),
    {
        let mut r: u8 = 0;
        let mut j: usize = end;
        assert(self.bits@.subrange(end as int, end as int) =~= Seq::<bool>::empty());
        while j > start
            invariant
                self.wf(),
                start <= j <= end <= self.bits@.len(),
                end - start <= 8,
                r as nat == bits_value(self.bits@.subrange(j as int, end as int)),
                r < pow2((end - j) as nat),
            decreases j,
        {
            let ghost tail = self.bits@.subrange(j as int, end as int);
            let b = self.bits[j - 1];
            proof {
                lemma_pow2_mono((end - j + 1) as nat, 8);
                lemma_pow2_8();
                let t = self.bits@.subrange(j - 1, end as int);
                assert(t.drop_first() =~= tail);
                assert(t[0] == b);
            }
            r = 2 * r + if b { 1u8 } else { 0u8 };
            j = j - 1;
        }
        r
    }

    /// Serialises the queued bits; see [`bytes_of_bits`].
    pub fn to_bytes(&self) -> (r: Vec<u8>)
        requires
            self.wf(),
        ensures
            r@ == bytes_of_bits(self@),
    {
        let ghost s = self@;
        let total = self.bits.len();
        let n = total - self.pos;
        let mut out: Vec<u8> = Vec::new();
        if n == 0 {
            assert(out@ =~= bytes_of_bits(s));
            return out;
        }
        let nb = n / 8 + if n % 8 == 0 {
            0
        } else {
            1
        };
        assert(nb == (n + 7) / 8) by (nonlinear_arith)
            requires
                nb == n / 8 + if n % 8 == 0 {
                    0int
                } else {
                    1int
                },
        ;
        let mut k: usize = nb;
        while k > 0
            invariant
                self.wf(),
                s == self@,
                n == s.len(),
                n == self.bits@.len() - self.pos,
                total == self.bits@.len(),
                n > 0,
                nb == (n + 7) / 8,
                k <= nb,
                k == nb ==> out@.len() == 0,
                k < nb ==> out@ == bytes_of_bits(s.subrange(8 * k, n as int)),
            decreases k,
        {
            let c = k - 1;
            assert(8 * c < n) by (nonlinear_arith)
                requires
                    c < nb,
                    nb == (n + 7) / 8,
            ;
            let start = 8 * c;
            let end = if n - start > 8 {
                8 * c + 8
            } else {
                n
            };
            assert(start <= end <= n);
            assert(self.pos + n == self.bits@.len());
            let b = self.pack(self.pos + start, self.pos + end);
            proof {
                let t = s.subrange(8 * c, n as int);
                assert(self.bits@.subrange((self.pos + start) as int, (self.pos + end) as int)
                    =~= s.subrange(start as int, end as int));
                if k == nb {
                    assert(end == n);
                    assert(t =~= s.subrange(start as int, end as int));
                    assert(out@ + seq![b] =~= bytes_of_bits(t));
                } else {
                    assert(t.subrange(8, t.len() as int) =~= s.subrange(8 * k, n as int));
                    assert(t.take(8) =~= s.subrange(start as int, end as int));
                    assert(out@ + seq![b] =~= bytes_of_bits(t));
                }
            }
            out.push(b);
            k = c;
        }
        assert(s.subrange(0, n as int) =~= s);
        out
    }

    /// Deserialises bytes produced by [`BitBuffer::to_bytes`]; see [`bits_of_bytes`].
    pub fn from_bytes(data: &[u8]) -> (r: Self)
        ensures
            r.wf(),
            r@ == bits_of_bytes(data@),
    {
        let mut r = BitBuffer::new();
        let n = data.len();
        let mut k: usize = n;
        assert(data@.subrange(n as int, n as int) =~= Seq::<u8>::empty());
        while k > 0
            invariant
                r.wf(),
                k <= n == data@.len(),
                r@ == bits_of_bytes(data@.subrange(k as int, n as int)),
            decreases k,
        {
            proof {
                let t = data@.subrange(k - 1, n as int);
                assert(t.drop_first() =~= data@.subrange(k as int, n as int));
            }
            r.add(data[k - 1], 8);
            k = k - 1;
        }
        assert(data@.subrange(0, n as int) =~= data@);
        r
    }

    /// Removes and returns the oldest bit.
    pub fn read_bit(&mut self) -> (r: Result<bool, BitBufferError>)
        requires
            old(self).wf(),
        ensures
            final(self).wf(),
            old(self)@.len() == 0 ==> r == Err::<bool, BitBufferError>(BitBufferError::Underflow)
                && final(self)@ == old(self)@,
            old(self)@.len() > 0 ==> r == Ok::<bool, BitBufferError>(old(self)@[0])
                && final(self)@ == old(self)@.drop_first(),
    {
        if self.pos < self.bits.len() {
            let b = self.bits[self.pos];
            self.pos = self.pos + 1;
            assert(self@ =~= old(self)@.drop_first());
            Ok(b)
        } else {
            Err(BitBufferError::Underflow)
        }
    }

    /// Removes the `length` oldest bits and returns their value, the oldest bit least
    /// significant.
    pub fn read(&mut self, length: u8) -> (r: Result<u8, BitBufferError>)
        requires
            old(self).wf(),
            length <= 8,
        ensures
            final(self).wf(),
            old(self)@.len() < length ==> r == Err::<u8, BitBufferError>(BitBufferError::Underflow)
                && final(self)@ == old(self)@,
            old(self)@.len() >= length ==> r == Ok::<u8, BitBufferError>(
                bits_value(old(self)@.take(length as int)) as u8,
            ) && final(self)@ == old(self)@.skip(length as int),
    {
        if self.bits.len() - self.pos < length as usize {
            return Err(BitBufferError::Underflow);
        }
        let end = self.pos + length as usize;
        let v = self.pack(self.pos, end);
        assert(self.bits@.subrange(self.pos as int, end as int) =~= old(self)@.take(length as int));
        self.pos = end;
        assert(self@ =~= old(self)@.skip(length as int));
        Ok(v)
    }
}

} // verus!
