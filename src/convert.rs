//! Transforms between plain blocks of `u32` and the `m1` and `d1z` formats.
//!
//! Every transform checks its input before it writes anything: on an error the
//! destination is left as it was.
use vstd::prelude::*;

verus! {

/// Why a transform or a pack operation refused its input.
#[derive(Debug, Clone, Copy, PartialEq, Eq, Structural)]
pub enum CodecError {
    /// A zero value was given to the `m1` transform.
    ZeroValue,
    /// A value would leave the range of `u32`.
    Overflow,
    /// Source and destination differ in length, or a block is not of the
    /// packer's block length.
    LengthMismatch,
    /// A byte or value buffer is shorter than the operation needs.
    BufferTooSmall,
    /// A bit width above 32, or a zero bit width where a concrete one is needed.
    InvalidBitWidth,
}

/// The largest value of `u32`.
pub open spec fn u32_max() -> int {
    0xffff_ffff
}

/// `s` holds no zero.
pub open spec fn all_positive(s: Seq<u32>) -> bool {
    forall|i: int| 0 <= i < s.len() ==> s[i] > 0
}

/// `s` holds no `u32::MAX`.
pub open spec fn all_below_max(s: Seq<u32>) -> bool {
    forall|i: int| 0 <= i < s.len() ==> s[i] < u32::MAX
}

/// `t` is `s` with one subtracted from every element.
pub open spec fn is_minus_one(s: Seq<u32>, t: Seq<u32>) -> bool {
    t.len() == s.len() && forall|i: int| 0 <= i < s.len() ==> t[i] == s[i] - 1
}

/// `t` is `s` with one added to every element.
pub open spec fn is_plus_one(s: Seq<u32>, t: Seq<u32>) -> bool {
    t.len() == s.len() && forall|i: int| 0 <= i < s.len() ==> t[i] == s[i] + 1
}

/// `s` with one subtracted from every element.
pub open spec fn minus_one(s: Seq<u32>) -> Seq<u32> {
    Seq::new(s.len(), |i: int| (s[i] - 1) as u32)
}

/// `s` with one added to every element.
pub open spec fn plus_one(s: Seq<u32>) -> Seq<u32> {
    Seq::new(s.len(), |i: int| (s[i] + 1) as u32)
}

/// Subtracts one from each value of `from` into `to`.
///
/// Fails with `LengthMismatch` when the lengths differ, else with `ZeroValue`
/// when `from` holds a zero.
pub fn vanilla_to_m1(from: &[u32], to: &mut [u32]) -> (r: Result<(), CodecError>)
    ensures
        from@.len() != old(to)@.len() ==> r == Err::<(), CodecError>(CodecError::LengthMismatch),
        from@.len() == old(to)@.len() && !all_positive(from@) ==> r == Err::<(), CodecError>(
            CodecError::ZeroValue,
        ),
        from@.len() == old(to)@.len() && all_positive(from@) ==> r is Ok,
        r is Ok ==> is_minus_one(from@, final(to)@),
        r is Err ==> final(to)@ == old(to)@,
{
    if from.len() != to.len() {
        return Err(CodecError::LengthMismatch);
    }
    let n = from.len();
    let mut i: usize = 0;
    while i < n
        invariant
            n == from@.len(),
            to@ == old(to)@,
            n == to@.len(),
            i <= n,
            forall|j: int| 0 <= j < i ==> from@[j] > 0,
        decreases n - i,
    {
        if from[i] == 0 {
            return Err(CodecError::ZeroValue);
        }
        i = i + 1;
    }
    let mut i: usize = 0;
    while i < n
        invariant
            n == from@.len(),
            to@.len() == n,
            i <= n,
            all_positive(from@),
            forall|j: int| 0 <= j < i ==> to@[j] == from@[j] - 1,
        decreases n - i,
    {
        to[i] = from[i] - 1;
        i = i + 1;
    }
    Ok(())
}

/// Subtracts one from each value of `data`, in place.
///
/// Fails with `ZeroValue` when `data` holds a zero, and then leaves it as it was.
pub fn vanilla_to_m1_self(data: &mut [u32]) -> (r: Result<(), CodecError>)
    ensures
        r is Ok <==> all_positive(old(data)@),
        r is Err ==> r == Err::<(), CodecError>(CodecError::ZeroValue) && final(data)@ == old(data)@,
        r is Ok ==> is_minus_one(old(data)@, final(data)@),
{
    let n = data.len();
    let mut i: usize = 0;
    while i < n
        invariant
            n == data@.len(),
            i <= n,
            forall|j: int| 0 <= j < i ==> data@[j] > 0,
        decreases n - i,
    {
        if data[i] == 0 {
            return Err(CodecError::ZeroValue);
        }
        i = i + 1;
    }
    let ghost orig = data@;
    let mut i: usize = 0;
    while i < n
        invariant
            n == data@.len(),
            orig.len() == n,
            i <= n,
            all_positive(orig),
            forall|j: int| 0 <= j < i ==> data@[j] == orig[j] - 1,
            forall|j: int| i <= j < n ==> data@[j] == orig[j],
        decreases n - i,
    {
        let v = data[i];
        assert(orig[i as int] > 0);
        data[i] = v - 1;
        i = i + 1;
    }
    Ok(())
}

/// Adds one to each value of `from` into `to`.
///
/// Fails with `LengthMismatch` when the lengths differ, else with `Overflow`
/// when `from` holds `u32::MAX`.
pub fn m1_to_vanilla(from: &[u32], to: &mut [u32]) -> (r: Result<(), CodecError>)
    ensures
        from@.len() != old(to)@.len() ==> r == Err::<(), CodecError>(CodecError::LengthMismatch),
        from@.len() == old(to)@.len() && !all_below_max(from@) ==> r == Err::<(), CodecError>(
            CodecError::Overflow,
        ),
        from@.len() == old(to)@.len() && all_below_max(from@) ==> r is Ok,
        r is Ok ==> is_plus_one(from@, final(to)@),
        r is Err ==> final(to)@ == old(to)@,
{
    if from.len() != to.len() {
        return Err(CodecError::LengthMismatch);
    }
    let n = from.len();
    let mut i: usize = 0;
    while i < n
        invariant
            n == from@.len(),
            to@ == old(to)@,
            n == to@.len(),
            i <= n,
            forall|j: int| 0 <= j < i ==> from@[j] < u32::MAX,
        decreases n - i,
    {
        if from[i] == u32::MAX {
            return Err(CodecError::Overflow);
        }
        i = i + 1;
    }
    let mut i: usize = 0;
    while i < n
        invariant
            n == from@.len(),
            to@.len() == n,
            i <= n,
            all_below_max(from@),
            forall|j: int| 0 <= j < i ==> to@[j] == from@[j] + 1,
        decreases n - i,
    {
        to[i] = from[i] + 1;
        i = i + 1;
    }
    Ok(())
}

/// Adds one to each value of `data`, in place.
///
/// Fails with `Overflow` when `data` holds `u32::MAX`, and then leaves it as it was.
pub fn m1_to_vanilla_self(data: &mut [u32]) -> (r: Result<(), CodecError>)
    ensures
        r is Ok <==> all_below_max(old(data)@),
        r is Err ==> r == Err::<(), CodecError>(CodecError::Overflow) && final(data)@ == old(data)@,
        r is Ok ==> is_plus_one(old(data)@, final(data)@),
{
    let n = data.len();
    let mut i: usize = 0;
    while i < n
        invariant
            n == data@.len(),
            i <= n,
            forall|j: int| 0 <= j < i ==> data@[j] < u32::MAX,
        decreases n - i,
    {
        if data[i] == u32::MAX {
            return Err(CodecError::Overflow);
        }
        i = i + 1;
    }
    let ghost orig = data@;
    let mut i: usize = 0;
    while i < n
        invariant
            n == data@.len(),
            orig.len() == n,
            i <= n,
            all_below_max(orig),
            forall|j: int| 0 <= j < i ==> data@[j] == orig[j] + 1,
            forall|j: int| i <= j < n ==> data@[j] == orig[j],
        decreases n - i,
    {
        let v = data[i];
        assert(orig[i as int] < u32::MAX);
        data[i] = v + 1;
        i = i + 1;
    }
    Ok(())
}

/// Zigzag code of the step from `prev` to `cur`: a step up by `d` becomes
/// `2d`, a step down by `d` becomes `2d - 1`.
pub open spec fn zigzag(prev: int, cur: int) -> int {
    if cur < prev {
        2 * (prev - cur) - 1
    } else {
        2 * (cur - prev)
    }
}

/// The value that follows `prev` under the zigzag code `code`.
pub open spec fn unzigzag(prev: int, code: int) -> int {
    if code % 2 == 1 {
        prev - code / 2 - 1
    } else {
        prev + code / 2
    }
}

/// The `d1z` code of element `i` of `s`; the first element is taken relative
/// to itself.
pub open spec fn d1z_code(s: Seq<u32>, i: int) -> int {
    zigzag(if i == 0 { s[0] as int } else { s[i - 1] as int }, s[i] as int)
}

/// Every `d1z` code of `s` fits in a `u32`.
pub open spec fn d1z_fits(s: Seq<u32>) -> bool {
    forall|i: int| 0 <= i < s.len() ==> #[trigger] d1z_code(s, i) <= u32_max()
}

/// `t` holds the `d1z` codes of `s`.
pub open spec fn is_d1z_of(s: Seq<u32>, t: Seq<u32>) -> bool {
    t.len() == s.len() && forall|i: int| 0 <= i < s.len() ==> t[i] == d1z_code(s, i)
}

/// Value `i` decoded from the `d1z` codes `codes`, starting after `initial`.
pub open spec fn decoded_at(initial: int, codes: Seq<u32>, i: nat) -> int
    decreases i,
{
    let prev = if i == 0 {
        initial
    } else {
        decoded_at(initial, codes, (i - 1) as nat)
    };
    unzigzag(prev, codes[i as int] as int)
}

/// Every value decoded from `codes` after `initial` fits in a `u32`.
pub open spec fn decode_fits(initial: int, codes: Seq<u32>) -> bool {
    forall|i: int|
        0 <= i < codes.len() ==> 0 <= #[trigger] decoded_at(initial, codes, i as nat) <= u32_max()
}

/// `t` holds the values decoded from `codes` after `initial`.
pub open spec fn is_decoding_of(initial: int, codes: Seq<u32>, t: Seq<u32>) -> bool {
    t.len() == codes.len() && forall|i: int|
        0 <= i < codes.len() ==> t[i] == decoded_at(initial, codes, i as nat)
}

/// The `d1z` codes of `s`.
pub open spec fn d1z_codes(s: Seq<u32>) -> Seq<u32> {
    Seq::new(s.len(), |i: int| d1z_code(s, i) as u32)
}

/// The values decoded from the `d1z` codes `codes` after `initial`.
pub open spec fn decoding(initial: int, codes: Seq<u32>) -> Seq<u32> {
    Seq::new(codes.len(), |i: int| decoded_at(initial, codes, i as nat) as u32)
}

/// The zigzag code of the step from `prev` to `cur`, if it fits in a `u32`.
fn zigzag_code(prev: u32, cur: u32) -> (r: Option<u32>)
    ensures
        r is Some <==> zigzag(prev as int, cur as int) <= u32_max(),
        r is Some ==> r->0 == zigzag(prev as int, cur as int),
{
    if cur < prev {
        let d = prev - cur;
        if d > 0x8000_0000 {
            None
        } else {
            Some((d - 1) * 2 + 1)
        }
    } else {
        let d = cur - prev;
        if d > 0x7fff_ffff {
            None
        } else {
            Some(2 * d)
        }
    }
}

/// The value after `prev` under the zigzag code `code`, if it fits in a `u32`.
fn unzigzag_value(prev: u32, code: u32) -> (r: Option<u32>)
    ensures
        r is Some <==> 0 <= unzigzag(prev as int, code as int) <= u32_max(),
        r is Some ==> r->0 == unzigzag(prev as int, code as int),
{
    let m = code % 2;
    let x = code / 2;
    if m > 0 {
        if prev < x + 1 {
            None
        } else {
            Some(prev - x - 1)
        }
    } else {
        if x > u32::MAX - prev {
            None
        } else {
            Some(prev + x)
        }
    }
}

/// Writes the `d1z` codes of `from` into `to`: each value becomes the zigzag
/// code of its step from the value before it, the first one of its step from
/// itself (so its code is zero).
///
/// Fails with `LengthMismatch` when the lengths differ, else with `Overflow`
/// when a code does not fit in a `u32`.
pub fn vanilla_to_d1z(from: &[u32], to: &mut [u32]) -> (r: Result<(), CodecError>)
    ensures
        from@.len() != old(to)@.len() ==> r == Err::<(), CodecError>(CodecError::LengthMismatch),
        from@.len() == old(to)@.len() && !d1z_fits(from@) ==> r == Err::<(), CodecError>(
            CodecError::Overflow,
        ),
        from@.len() == old(to)@.len() && d1z_fits(from@) ==> r is Ok,
        r is Ok ==> is_d1z_of(from@, final(to)@),
        r is Err ==> final(to)@ == old(to)@,
{
    if from.len() != to.len() {
        return Err(CodecError::LengthMismatch);
    }
    let n = from.len();
    if n == 0 {
        return Ok(());
    }
    let mut pre_val = from[0];
    let mut i: usize = 0;
    while i < n
        invariant
            n == from@.len(),
            to@ == old(to)@,
            n == to@.len(),
            0 < n,
            i <= n,
            pre_val == if i == 0 { from@[0] } else { from@[i - 1] },
            forall|j: int| 0 <= j < i ==> #[trigger] d1z_code(from@, j) <= u32_max(),
        decreases n - i,
    {
        if zigzag_code(pre_val, from[i]).is_none() {
            assert(d1z_code(from@, i as int) > u32_max());
            return Err(CodecError::Overflow);
        }
        pre_val = from[i];
        i = i + 1;
    }
    let mut pre_val = from[0];
    let mut i: usize = 0;
    while i < n
        invariant
            n == from@.len(),
            to@.len() == n,
            0 < n,
            i <= n,
            d1z_fits(from@),
            pre_val == if i == 0 { from@[0] } else { from@[i - 1] },
            forall|j: int| 0 <= j < i ==> to@[j] == d1z_code(from@, j),
        decreases n - i,
    {
        let cur = from[i];
        assert(d1z_code(from@, i as int) <= u32_max());
        match zigzag_code(pre_val, cur) {
            Some(c) => {
                to[i] = c;
            },
            None => {},
        }
        pre_val = cur;
        i = i + 1;
    }
    Ok(())
}

/// Same as `vanilla_to_d1z`, in place.
pub fn vanilla_to_d1z_self(data: &mut [u32]) -> (r: Result<(), CodecError>)
    ensures
        r is Ok <==> d1z_fits(old(data)@),
        r is Err ==> r == Err::<(), CodecError>(CodecError::Overflow) && final(data)@ == old(data)@,
        r is Ok ==> is_d1z_of(old(data)@, final(data)@),
{
    let n = data.len();
    if n == 0 {
        return Ok(());
    }
    let mut pre_val = data[0];
    let mut i: usize = 0;
    while i < n
        invariant
            n == data@.len(),
            data@ == old(data)@,
            0 < n,
            i <= n,
            pre_val == if i == 0 { data@[0] } else { data@[i - 1] },
            forall|j: int| 0 <= j < i ==> #[trigger] d1z_code(data@, j) <= u32_max(),
        decreases n - i,
    {
        if zigzag_code(pre_val, data[i]).is_none() {
            assert(d1z_code(data@, i as int) > u32_max());
            return Err(CodecError::Overflow);
        }
        pre_val = data[i];
        i = i + 1;
    }
    let ghost orig = data@;
    let mut pre_val = data[0];
    let mut i: usize = 0;
    while i < n
        invariant
            n == data@.len(),
            orig.len() == n,
            0 < n,
            i <= n,
            d1z_fits(orig),
            pre_val == if i == 0 { orig[0] } else { orig[i - 1] },
            forall|j: int| 0 <= j < i ==> data@[j] == d1z_code(orig, j),
            forall|j: int| i <= j < n ==> data@[j] == orig[j],
        decreases n - i,
    {
        let cur = data[i];
        assert(d1z_code(orig, i as int) <= u32_max());
        match zigzag_code(pre_val, cur) {
            Some(c) => {
                data[i] = c;
            },
            None => {},
        }
        pre_val = cur;
        i = i + 1;
    }
    Ok(())
}

/// Writes into `to` the values decoded from the `d1z` codes `from`, where
/// `initial` is the value before the first one.
///
/// Fails with `LengthMismatch` when the lengths differ, else with `Overflow`
/// when a decoded value leaves the range of `u32`.
pub fn d1z_to_vanilla(from: &[u32], to: &mut [u32], initial: u32) -> (r: Result<(), CodecError>)
    ensures
        from@.len() != old(to)@.len() ==> r == Err::<(), CodecError>(CodecError::LengthMismatch),
        from@.len() == old(to)@.len() && !decode_fits(initial as int, from@) ==> r == Err::<
            (),
            CodecError,
        >(CodecError::Overflow),
        from@.len() == old(to)@.len() && decode_fits(initial as int, from@) ==> r is Ok,
        r is Ok ==> is_decoding_of(initial as int, from@, final(to)@),
        r is Err ==> final(to)@ == old(to)@,
{
    if from.len() != to.len() {
        return Err(CodecError::LengthMismatch);
    }
    let n = from.len();
    let mut pre_val = initial;
    let mut i: usize = 0;
    while i < n
        invariant
            n == from@.len(),
            to@ == old(to)@,
            n == to@.len(),
            i <= n,
            pre_val == if i == 0 { initial as int } else { decoded_at(initial as int, from@, (i - 1) as nat) },
            forall|j: int|
                0 <= j < i ==> 0 <= #[trigger] decoded_at(initial as int, from@, j as nat) <= u32_max(),
        decreases n - i,
    {
        let ghost k: int = i as int;
        match unzigzag_value(pre_val, from[i]) {
            Some(v) => {
                assert(decoded_at(initial as int, from@, k as nat) == v);
                pre_val = v;
            },
            None => {
                assert(!(0 <= decoded_at(initial as int, from@, k as nat) <= u32_max()));
                return Err(CodecError::Overflow);
            },
        }
        i = i + 1;
    }
    let mut pre_val = initial;
    let mut i: usize = 0;
    while i < n
        invariant
            n == from@.len(),
            to@.len() == n,
            i <= n,
            decode_fits(initial as int, from@),
            pre_val == if i == 0 { initial as int } else { decoded_at(initial as int, from@, (i - 1) as nat) },
            forall|j: int| 0 <= j < i ==> to@[j] == decoded_at(initial as int, from@, j as nat),
        decreases n - i,
    {
        let ghost k: int = i as int;
        assert(0 <= decoded_at(initial as int, from@, k as nat) <= u32_max());
        match unzigzag_value(pre_val, from[i]) {
            Some(v) => {
                to[i] = v;
                pre_val = v;
            },
            None => {},
        }
        i = i + 1;
    }
    Ok(())
}

/// Same as `d1z_to_vanilla`, in place.
pub fn d1z_to_vanilla_self(data: &mut [u32], initial: u32) -> (r: Result<(), CodecError>)
    ensures
        r is Ok <==> decode_fits(initial as int, old(data)@),
        r is Err ==> r == Err::<(), CodecError>(CodecError::Overflow) && final(data)@ == old(data)@,
        r is Ok ==> is_decoding_of(initial as int, old(data)@, final(data)@),
{
    let n = data.len();
    let mut pre_val = initial;
    let mut i: usize = 0;
    while i < n
        invariant
            n == data@.len(),
            data@ == old(data)@,
            i <= n,
            pre_val == if i == 0 { initial as int } else { decoded_at(initial as int, data@, (i - 1) as nat) },
            forall|j: int|
                0 <= j < i ==> 0 <= #[trigger] decoded_at(initial as int, data@, j as nat) <= u32_max(),
        decreases n - i,
    {
        let ghost k: int = i as int;
        match unzigzag_value(pre_val, data[i]) {
            Some(v) => {
                assert(decoded_at(initial as int, data@, k as nat) == v);
                pre_val = v;
            },
            None => {
                assert(!(0 <= decoded_at(initial as int, data@, k as nat) <= u32_max()));
                return Err(CodecError::Overflow);
            },
        }
        i = i + 1;
    }
    let ghost orig = data@;
    let mut pre_val = initial;
    let mut i: usize = 0;
    while i < n
        invariant
            n == data@.len(),
            orig.len() == n,
            i <= n,
            decode_fits(initial as int, orig),
            pre_val == if i == 0 { initial as int } else { decoded_at(initial as int, orig, (i - 1) as nat) },
            forall|j: int| 0 <= j < i ==> data@[j] == decoded_at(initial as int, orig, j as nat),
            forall|j: int| i <= j < n ==> data@[j] == orig[j],
        decreases n - i,
    {
        let ghost k: int = i as int;
        assert(0 <= decoded_at(initial as int, orig, k as nat) <= u32_max());
        match unzigzag_value(pre_val, data[i]) {
            Some(v) => {
                data[i] = v;
                pre_val = v;
            },
            None => {},
        }
        i = i + 1;
    }
    Ok(())
}

/// Decoding a zigzag code with the value it was taken from gives back the
/// value it was taken to, for every pair of `u32` values.
pub proof fn lemma_zigzag_inverse(prev: u32, cur: u32)
    ensures
        unzigzag(prev as int, zigzag(prev as int, cur as int)) == cur as int,
{
    let c = zigzag(prev as int, cur as int);
    if cur < prev {
        assert(c % 2 == 1 && c / 2 == prev - cur - 1) by (nonlinear_arith)
            requires
                c == 2 * (prev - cur) - 1,
                prev - cur >= 1,
        ;
    } else {
        assert(c % 2 == 0 && c / 2 == cur - prev) by (nonlinear_arith)
            requires
                c == 2 * (cur - prev),
        ;
    }
}

/// Adding one undoes subtracting one: when `t` is a block without zeros
/// lowered by one, `t` has no `u32::MAX`, and raising it by one gives back
/// the block.
pub proof fn lemma_m1_round_trip(s: Seq<u32>, t: Seq<u32>, u: Seq<u32>)
    requires
        all_positive(s),
        is_minus_one(s, t),
    ensures
        all_below_max(t),
        is_plus_one(t, u) ==> u == s,
{
    if is_plus_one(t, u) {
        assert(u =~= s);
    }
}

/// Decoding the `d1z` codes of a non-empty block from its first value gives
/// back the block, and no decoded value leaves the range of `u32`.
pub proof fn lemma_d1z_round_trip(s: Seq<u32>, t: Seq<u32>)
    requires
        s.len() > 0,
        is_d1z_of(s, t),
    ensures
        decode_fits(s[0] as int, t),
        is_decoding_of(s[0] as int, t, s),
{
    assert forall|i: int| 0 <= i < s.len() implies #[trigger] decoded_at(
        s[0] as int,
        t,
        i as nat,
    ) == s[i] as int by {
        lemma_d1z_prefix(s, t, i as nat);
    }
}

proof fn lemma_d1z_prefix(s: Seq<u32>, t: Seq<u32>, i: nat)
    requires
        s.len() > 0,
        is_d1z_of(s, t),
        i < s.len(),
    ensures
        decoded_at(s[0] as int, t, i) == s[i as int] as int,
    decreases i,
{
    if i == 0 {
        lemma_zigzag_inverse(s[0], s[0]);
    } else {
        lemma_d1z_prefix(s, t, (i - 1) as nat);
        lemma_zigzag_inverse(s[i - 1], s[i as int]);
    }
}

/// Lowering a block without zeros by one and raising the result by one gives
/// back the block, and the lowered block has no `u32::MAX`.
pub proof fn lemma_minus_one_inverse(s: Seq<u32>)
    requires
        all_positive(s),
    ensures
        all_below_max(minus_one(s)),
        plus_one(minus_one(s)) == s,
{
    assert(plus_one(minus_one(s)) =~= s);
}

/// Decoding the `d1z` codes of a non-empty block from its first value gives
/// back the block, and no decoded value leaves the range of `u32`.
pub proof fn lemma_d1z_codes_inverse(s: Seq<u32>)
    requires
        s.len() > 0,
        d1z_fits(s),
    ensures
        decode_fits(s[0] as int, d1z_codes(s)),
        decoding(s[0] as int, d1z_codes(s)) == s,
{
    let t = d1z_codes(s);
    assert forall|i: int| 0 <= i < s.len() implies t[i] == d1z_code(s, i) by {
        assert(d1z_code(s, i) <= u32_max());
    }
    lemma_d1z_round_trip(s, t);
    assert(decoding(s[0] as int, t) =~= s);
}

} // verus!
