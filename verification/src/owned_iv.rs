use vstd::prelude::*;

verus! {

/// Little-endian value of an 8-byte window.
pub open spec fn le_value(w: Seq<u8>) -> int {
    w[0] as int + 256 * w[1] + 65536 * w[2] + 16777216 * w[3] + 4294967296 * w[4]
        + 1099511627776 * w[5] + 281474976710656 * w[6] + 72057594037927936 * w[7]
}

/// The eight little-endian bytes of `v` (for `0 <= v <= u64::MAX`).
pub open spec fn le_bytes(v: int) -> Seq<u8> {
    let q1 = v / 256;
    let q2 = q1 / 256;
    let q3 = q2 / 256;
    let q4 = q3 / 256;
    let q5 = q4 / 256;
    let q6 = q5 / 256;
    let q7 = q6 / 256;
    seq![
        (v % 256) as u8,
        (q1 % 256) as u8,
        (q2 % 256) as u8,
        (q3 % 256) as u8,
        (q4 % 256) as u8,
        (q5 % 256) as u8,
        (q6 % 256) as u8,
        (q7 % 256) as u8,
    ]
}

/// Sum of the bytes of a sequence.
pub open spec fn byte_sum(s: Seq<u8>) -> nat
    decreases s.len(),
{
    if s.len() == 0 {
        0
    } else {
        byte_sum(s.drop_last()) + s.last() as nat
    }
}

/// The abstract state of an [`OwnedIv`]: the base IV, the current IV, the
/// position of the 8-byte counter window, the pinned position, the byte order
/// of the window (`rev`: big-endian) and the counting direction (`mm`: up).
pub struct IvState {
    pub base: Seq<u8>,
    pub iv: Seq<u8>,
    pub pos: nat,
    pub pp: nat,
    pub rev: bool,
    pub mm: bool,
}

impl IvState {
    /// The state built from a 16-byte IV.
    pub open spec fn initial(iv: Seq<u8>) -> IvState {
        let p = byte_sum(iv) % 9;
        IvState { base: iv, iv: iv, pos: p, pp: p, rev: false, mm: true }
    }

    /// Both IVs hold 16 bytes, the window lies inside them, and the current IV
    /// differs from the base IV at most inside the window.
    pub open spec fn wf(self) -> bool {
        &&& self.base.len() == 16
        &&& self.iv.len() == 16
        &&& self.pos <= 8
        &&& self.pp <= 8
        &&& forall|i: int|
            0 <= i < 16 && !(self.pos <= i < self.pos + 8) ==> #[trigger] self.iv[i] == self.base[i]
    }

    /// The eight bytes of the counter window.
    pub open spec fn window(self) -> Seq<u8> {
        self.iv.subrange(self.pos as int, self.pos + 8int)
    }

    /// The counter held in the window, read in the window's byte order.
    pub open spec fn counter(self) -> int {
        if self.rev {
            le_value(self.window().reverse())
        } else {
            le_value(self.window())
        }
    }

    /// The state with counter `v` written into the window in its byte order.
    pub open spec fn with_counter(self, v: int) -> IvState {
        let bytes = if self.rev { le_bytes(v).reverse() } else { le_bytes(v) };
        IvState {
            iv: self.iv.subrange(0, self.pos as int) + bytes + self.iv.subrange(self.pos + 8int, 16),
            ..self
        }
    }

    /// The state after the window is exhausted: the IV is restored from the
    /// base, and the window moves one place (down while little-endian, up
    /// while big-endian), turning round at either end. Coming down onto the
    /// pinned position flips the counting direction, and reverses both IVs
    /// when the count was going down.
    pub open spec fn magic(self) -> IvState {
        if !self.rev {
            if self.pos > 0 {
                let p = (self.pos - 1) as nat;
                if p == self.pp {
                    let b = if !self.mm { self.base.reverse() } else { self.base };
                    IvState { base: b, iv: b, pos: p, mm: !self.mm, ..self }
                } else {
                    IvState { iv: self.base, pos: p, ..self }
                }
            } else {
                IvState { iv: self.base, rev: true, ..self }
            }
        } else {
            if self.pos < 8 {
                IvState { iv: self.base, pos: self.pos + 1, ..self }
            } else {
                IvState { iv: self.base, rev: false, ..self }
            }
        }
    }

    /// Whether the counter stands one step before its limit in the current
    /// direction (`u64::MAX - 1` counting up, `1` counting down).
    pub open spec fn at_limit(self) -> bool {
        if self.mm {
            self.counter() == u64::MAX - 1
        } else {
            self.counter() == 1
        }
    }

    /// The state the step counts from: the window is first moved on when the
    /// counter stands at its limit.
    pub open spec fn step_source(self) -> IvState {
        if self.at_limit() {
            self.magic()
        } else {
            self
        }
    }

    /// The counter value written by one step.
    pub open spec fn stepped_counter(self) -> int {
        let s = self.step_source();
        if s.mm {
            s.counter() + 1
        } else {
            s.counter() - 1
        }
    }

    /// The state after one step.
    pub open spec fn next(self) -> IvState {
        self.step_source().with_counter(self.stepped_counter())
    }

    /// Whether one step would take the counter out of the `u64` range.
    pub open spec fn next_overflows(self) -> bool {
        let s = self.step_source();
        if s.mm {
            s.counter() == u64::MAX
        } else {
            s.counter() == 0
        }
    }
}

/// Decoding the little-endian bytes of a `u64` value gives the value back.
pub proof fn lemma_le_roundtrip(v: int)
    requires
        0 <= v <= u64::MAX,
    ensures
        le_bytes(v).len() == 8,
        le_value(le_bytes(v)) == v,
{
    let q1 = v / 256;
    let q2 = q1 / 256;
    let q3 = q2 / 256;
    let q4 = q3 / 256;
    let q5 = q4 / 256;
    let q6 = q5 / 256;
    let q7 = q6 / 256;
    assert(q7 < 256);
    let b = le_bytes(v);
    assert(b[0] == v % 256);
    assert(b[1] == q1 % 256);
    assert(b[2] == q2 % 256);
    assert(b[3] == q3 % 256);
    assert(b[4] == q4 % 256);
    assert(b[5] == q5 % 256);
    assert(b[6] == q6 % 256);
    assert(b[7] == q7);
}


/// Reading back what `with_counter` wrote gives the written value, and the
/// other fields are left as they were.
pub proof fn lemma_with_counter_reads_back(s: IvState, v: int)
    requires
        s.wf(),
        0 <= v <= u64::MAX,
    ensures
        s.with_counter(v).counter() == v,
        s.with_counter(v).iv.len() == 16,
        s.with_counter(v).window() == (if s.rev { le_bytes(v).reverse() } else { le_bytes(v) }),
        forall|i: int|
            0 <= i < 16 && !(s.pos <= i < s.pos + 8) ==> #[trigger] s.with_counter(v).iv[i]
                == s.iv[i],
{
    lemma_le_roundtrip(v);
    let bytes = if s.rev { le_bytes(v).reverse() } else { le_bytes(v) };
    let t = s.with_counter(v);
    assert(t.window() =~= bytes);
    if s.rev {
        assert(bytes.reverse() =~= le_bytes(v));
    }
}

/// A generator of 16-byte IVs that counts through an 8-byte window of a base
/// IV, moving the window and changing direction when a count is exhausted.
pub struct OwnedIv {
    base_iv: [u8; 16],
    iv: [u8; 16],
    pos: usize,
    pp: usize,
    rev: bool,
    mm: bool,
}

impl View for OwnedIv {
    type V = IvState;

    closed spec fn view(&self) -> IvState {
        IvState {
            base: self.base_iv@,
            iv: self.iv@,
            pos: self.pos as nat,
            pp: self.pp as nat,
            rev: self.rev,
            mm: self.mm,
        }
    }
}

/// The counter in the window of `a` at `pos`, read little-endian or, when
/// `rev`, big-endian.
fn read_window(a: &[u8; 16], pos: usize, rev: bool) -> (v: u64)
    requires
        pos <= 8,
    ensures
        v == (if rev {
            le_value(a@.subrange(pos as int, pos + 8int).reverse())
        } else {
            le_value(a@.subrange(pos as int, pos + 8int))
        }),
{
    let ghost w = a@.subrange(pos as int, pos + 8int);
    let b0 = a[pos] as u64;
    let b1 = a[pos + 1] as u64;
    let b2 = a[pos + 2] as u64;
    let b3 = a[pos + 3] as u64;
    let b4 = a[pos + 4] as u64;
    let b5 = a[pos + 5] as u64;
    let b6 = a[pos + 6] as u64;
    let b7 = a[pos + 7] as u64;
    if rev {
        assert(w.reverse()[0] == b7 && w.reverse()[1] == b6 && w.reverse()[2] == b5
            && w.reverse()[3] == b4 && w.reverse()[4] == b3 && w.reverse()[5] == b2
            && w.reverse()[6] == b1 && w.reverse()[7] == b0);
        b7 + 256 * (b6 + 256 * (b5 + 256 * (b4 + 256 * (b3 + 256 * (b2 + 256 * (b1 + 256
            * b0))))))
    } else {
        b0 + 256 * (b1 + 256 * (b2 + 256 * (b3 + 256 * (b4 + 256 * (b5 + 256 * (b6 + 256
            * b7))))))
    }
}

/// Writes the eight bytes of `v` into the window of `a` at `pos`,
/// little-endian or, when `rev`, big-endian.
fn write_window(a: &mut [u8; 16], pos: usize, rev: bool, v: u64)
    requires
        pos <= 8,
    ensures
        final(a)@ == old(a)@.subrange(0, pos as int) + (if rev {
            le_bytes(v as int).reverse()
        } else {
            le_bytes(v as int)
        }) + old(a)@.subrange(pos + 8int, 16),
{
    let ghost bytes = le_bytes(v as int);
    let q1 = v / 256;
    let q2 = q1 / 256;
    let q3 = q2 / 256;
    let q4 = q3 / 256;
    let q5 = q4 / 256;
    let q6 = q5 / 256;
    let q7 = q6 / 256;
    let c0 = (v % 256) as u8;
    let c1 = (q1 % 256) as u8;
    let c2 = (q2 % 256) as u8;
    let c3 = (q3 % 256) as u8;
    let c4 = (q4 % 256) as u8;
    let c5 = (q5 % 256) as u8;
    let c6 = (q6 % 256) as u8;
    let c7 = (q7 % 256) as u8;
    assert(bytes[0] == c0 && bytes[1] == c1 && bytes[2] == c2 && bytes[3] == c3 && bytes[4] == c4
        && bytes[5] == c5 && bytes[6] == c6 && bytes[7] == c7);
    if rev {
        a[pos] = c7;
        a[pos + 1] = c6;
        a[pos + 2] = c5;
        a[pos + 3] = c4;
        a[pos + 4] = c3;
        a[pos + 5] = c2;
        a[pos + 6] = c1;
        a[pos + 7] = c0;
        assert(a@ =~= old(a)@.subrange(0, pos as int) + bytes.reverse() + old(a)@.subrange(
            pos + 8int,
            16,
        ));
    } else {
        a[pos] = c0;
        a[pos + 1] = c1;
        a[pos + 2] = c2;
        a[pos + 3] = c3;
        a[pos + 4] = c4;
        a[pos + 5] = c5;
        a[pos + 6] = c6;
        a[pos + 7] = c7;
        assert(a@ =~= old(a)@.subrange(0, pos as int) + bytes + old(a)@.subrange(pos + 8int, 16));
    }
}

/// The bytes of `a` in reverse order.
fn reversed(a: &[u8; 16]) -> (r: [u8; 16])
    ensures
        r@ == a@.reverse(),
{
    let mut r: [u8; 16] = [0; 16];
    let mut i: usize = 0;
    while i < 16
        invariant
            i <= 16,
            forall|j: int| 0 <= j < i ==> r@[j] == a@[15 - j],
        decreases 16 - i,
    {
        r[i] = a[15 - i];
        i = i + 1;
    }
    assert(r@ =~= a@.reverse());
    r
}


/// Moving the window keeps the state well formed, leaves the current IV equal
/// to the base IV, keeps the pinned position, and leaves the base IV as it was
/// or reversed.
pub proof fn lemma_magic(s: IvState)
    requires
        s.wf(),
    ensures
        s.magic().wf(),
        s.magic().iv == s.magic().base,
        s.magic().pp == s.pp,
        s.magic().base == s.base || s.magic().base == s.base.reverse(),
{
    assert(s.base.reverse().len() == 16);
}

/// The counter of a well-formed state is a `u64` value.
pub proof fn lemma_counter_range(s: IvState)
    requires
        s.wf(),
    ensures
        0 <= s.counter() <= u64::MAX,
{
    let w = s.window();
    assert(w.len() == 8);
    if s.rev {
        assert(w.reverse().len() == 8);
    }
}

/// One step of the generator: unless it overflows, it keeps the state well
/// formed and the pinned position, leaves the base IV as it was or reversed,
/// changes the current IV only inside the (possibly moved) window, and leaves
/// there the stepped counter: one more than before when counting up, one less
/// when counting down.
pub proof fn lemma_next(s: IvState)
    requires
        s.wf(),
        !s.next_overflows(),
    ensures
        s.next().wf(),
        s.next().pp == s.pp,
        s.next().base == s.base || s.next().base == s.base.reverse(),
        s.next().pos == s.step_source().pos,
        s.next().base == s.step_source().base,
        forall|i: int|
            0 <= i < 16 && !(s.next().pos <= i < s.next().pos + 8) ==> #[trigger] s.next().iv[i]
                == s.step_source().iv[i],
        s.next().counter() == s.stepped_counter(),
        s.next().counter() == (if s.step_source().mm {
            s.step_source().counter() + 1
        } else {
            s.step_source().counter() - 1
        }),
        !s.at_limit() ==> s.step_source() == s,
{
    let src = s.step_source();
    if s.at_limit() {
        lemma_magic(s);
    }
    lemma_counter_range(src);
    lemma_with_counter_reads_back(src, s.stepped_counter());
}

/// The sum of the sixteen bytes of an IV, written out term by term.
pub open spec fn sum16(iv: Seq<u8>) -> int {
    iv[0] as int + iv[1] as int + iv[2] as int + iv[3] as int + iv[4] as int + iv[5] as int
        + iv[6] as int + iv[7] as int + iv[8] as int + iv[9] as int + iv[10] as int
        + iv[11] as int + iv[12] as int + iv[13] as int + iv[14] as int + iv[15] as int
}

/// A generator built from a 16-byte IV starts with its window, and its pinned
/// position, at the sum of all sixteen bytes modulo 9, little-endian and
/// counting up, with both IVs equal to the given one.
pub proof fn lemma_initial_position(iv: Seq<u8>)
    requires
        iv.len() == 16,
    ensures
        IvState::initial(iv).pos == sum16(iv) % 9,
        IvState::initial(iv).pp == sum16(iv) % 9,
        IvState::initial(iv).base == iv,
        IvState::initial(iv).iv == iv,
        !IvState::initial(iv).rev,
        IvState::initial(iv).mm,
{
    lemma_byte_sum16(iv);
}

/// The byte sum of the first `n` bytes is the sum of the byte sum of the
/// first `n - 1` and the last of them.
proof fn lemma_byte_sum_step(s: Seq<u8>, n: int)
    requires
        0 < n <= s.len(),
    ensures
        byte_sum(s.subrange(0, n)) == byte_sum(s.subrange(0, n - 1)) + s[n - 1],
{
    assert(s.subrange(0, n).drop_last() =~= s.subrange(0, n - 1));
}

/// The byte sum of a 16-byte IV, unrolled.
proof fn lemma_byte_sum16(iv: Seq<u8>)
    requires
        iv.len() == 16,
    ensures
        byte_sum(iv) == sum16(iv),
{
    assert(iv.subrange(0, 16) =~= iv);
    assert(iv.subrange(0, 0) =~= Seq::<u8>::empty());
    lemma_byte_sum_step(iv, 1);
    lemma_byte_sum_step(iv, 2);
    lemma_byte_sum_step(iv, 3);
    lemma_byte_sum_step(iv, 4);
    lemma_byte_sum_step(iv, 5);
    lemma_byte_sum_step(iv, 6);
    lemma_byte_sum_step(iv, 7);
    lemma_byte_sum_step(iv, 8);
    lemma_byte_sum_step(iv, 9);
    lemma_byte_sum_step(iv, 10);
    lemma_byte_sum_step(iv, 11);
    lemma_byte_sum_step(iv, 12);
    lemma_byte_sum_step(iv, 13);
    lemma_byte_sum_step(iv, 14);
    lemma_byte_sum_step(iv, 15);
    lemma_byte_sum_step(iv, 16);
}

impl OwnedIv {
    /// Builds a generator over `iv`: the base IV and the current IV both start
    /// as `iv`, and the window starts at the pinned position, the byte sum of
    /// `iv` modulo 9, read little-endian and counting up.
    pub fn new(iv: &[u8; 16]) -> (r: OwnedIv)
        ensures
            r@ == IvState::initial(iv@),
            r@.wf(),
            r@.pos == sum16(iv@) % 9,
            r@.pp == r@.pos,
            r@.base == iv@ && r@.iv == iv@ && !r@.rev && r@.mm,
    {
        proof {
            lemma_initial_position(iv@);
        }
        let mut sum: usize = 0;
        let mut i: usize = 0;
        while i < 16
            invariant
                i <= 16,
                sum == byte_sum(iv@.subrange(0, i as int)),
                sum <= 255 * i,
            decreases 16 - i,
        {
            assert(iv@.subrange(0, i + 1int).drop_last() =~= iv@.subrange(0, i as int));
            sum = sum + iv[i] as usize;
            i = i + 1;
        }
        assert(iv@.subrange(0, 16) =~= iv@);
        let pp: usize = sum % 9;
        OwnedIv { base_iv: *iv, iv: *iv, pos: pp, pp: pp, rev: false, mm: true }
    }

    /// Restores the IV from the base, moves the window, and returns the
    /// counter now in it.
    fn do_magic(&mut self) -> (r: u64)
        requires
            old(self)@.wf(),
        ensures
            final(self)@ == old(self)@.magic(),
            r == final(self)@.counter(),
    {
        let p = self.pos;
        self.iv[p] = self.base_iv[p];
        self.iv[p + 1] = self.base_iv[p + 1];
        self.iv[p + 2] = self.base_iv[p + 2];
        self.iv[p + 3] = self.base_iv[p + 3];
        self.iv[p + 4] = self.base_iv[p + 4];
        self.iv[p + 5] = self.base_iv[p + 5];
        self.iv[p + 6] = self.base_iv[p + 6];
        self.iv[p + 7] = self.base_iv[p + 7];
        assert(self.iv@ =~= self.base_iv@);
        if self.rev == false {
            if self.pos > 0 {
                self.pos = self.pos - 1;
                if self.pos == self.pp {
                    if self.mm == false {
                        self.base_iv = reversed(&self.base_iv);
                        self.iv = reversed(&self.iv);
                    }
                    self.mm = !self.mm;
                }
            } else {
                self.rev = true;
            }
        } else {
            if self.pos < 8 {
                self.pos = self.pos + 1;
            } else {
                self.rev = false;
            }
        }
        read_window(&self.iv, self.pos, self.rev)
    }

    /// Whether the next call of [`OwnedIv::next_iv`] would take the counter
    /// out of the `u64` range.
    pub fn next_iv_overflows(&self) -> (r: bool)
        requires
            self@.wf(),
        ensures
            r == self@.next_overflows(),
    {
        let tmp = read_window(&self.iv, self.pos, self.rev);
        let at_limit = if self.mm {
            tmp == u64::MAX - 1
        } else {
            tmp == 1
        };
        if at_limit {
            let mut moved = OwnedIv {
                base_iv: self.base_iv,
                iv: self.iv,
                pos: self.pos,
                pp: self.pp,
                rev: self.rev,
                mm: self.mm,
            };
            let t = moved.do_magic();
            if moved.mm {
                t == u64::MAX
            } else {
                t == 0
            }
        } else if self.mm {
            tmp == u64::MAX
        } else {
            tmp == 0
        }
    }

    /// Steps the generator and returns the new IV: the counter in the window
    /// goes one up (or down), after the window has been moved on when the
    /// counter stood at its limit.
    pub fn next_iv(&mut self) -> (r: &[u8; 16])
        requires
            old(self)@.wf(),
            !old(self)@.next_overflows(),
        ensures
            final(self)@ == old(self)@.next(),
            final(self)@.wf(),
            r@ == final(self)@.iv,
    {
        proof {
            lemma_next(old(self)@);
        }
        let mut tmp = read_window(&self.iv, self.pos, self.rev);
        if self.mm {
            if tmp == u64::MAX - 1 {
                tmp = self.do_magic();
            }
        } else {
            if tmp == 1 {
                tmp = self.do_magic();
            }
        }
        if self.mm {
            tmp = tmp + 1;
        } else {
            tmp = tmp - 1;
        }
        write_window(&mut self.iv, self.pos, self.rev, tmp);
        &self.iv
    }
}

} // verus!
