//! The checksum at the end of an output descriptor.
use vstd::prelude::*;
use vstd::string::*;
use crate::error::WalletError;
use crate::text::{chars_of, find_char, first_from, text_of};

verus! {

/// The characters that a descriptor may hold, each with its position as its code.
pub open spec fn input_charset() -> Seq<char> {
    "0123456789()[],'/*abcdefgh@:$%{}IJKLMNOPQRSTUVWXYZ&+-.;<=>?!^_|~ijklmnopqrstuvwxyzABCDEFGH`#\"\\ "@
}

/// The characters of a checksum, each with its position as its code.
pub open spec fn checksum_charset() -> Seq<char> {
    "qpzry9x8gf2tvdw0s3jn54khce6mua7l"@
}

/// One step of the checksum's polynomial division.
pub open spec fn polymod(state: u64, value: u64) -> u64 {
    let top = state >> 35u64;
    let s0 = ((state & 0x7_ffff_ffffu64) << 5u64) ^ value;
    let s1 = if top & 1u64 != 0 {
        s0 ^ 0xf5_dee5_1989u64
    } else {
        s0
    };
    let s2 = if top & 2u64 != 0 {
        s1 ^ 0xa9_fdca_3312u64
    } else {
        s1
    };
    let s3 = if top & 4u64 != 0 {
        s2 ^ 0x1b_ab10_e32du64
    } else {
        s2
    };
    let s4 = if top & 8u64 != 0 {
        s3 ^ 0x37_06b1_677au64
    } else {
        s3
    };
    if top & 16u64 != 0 {
        s4 ^ 0x64_4d62_6ffdu64
    } else {
        s4
    }
}

fn polymod_step(state: u64, value: u64) -> (next: u64)
    ensures
        next == polymod(state, value),
{
    let top = state >> 35u64;
    let mut next: u64 = ((state & 0x7_ffff_ffffu64) << 5u64) ^ value;
    if top & 1u64 != 0 {
        next = next ^ 0xf5_dee5_1989u64;
    }
    if top & 2u64 != 0 {
        next = next ^ 0xa9_fdca_3312u64;
    }
    if top & 4u64 != 0 {
        next = next ^ 0x1b_ab10_e32du64;
    }
    if top & 8u64 != 0 {
        next = next ^ 0x37_06b1_677au64;
    }
    if top & 16u64 != 0 {
        next = next ^ 0x64_4d62_6ffdu64;
    }
    next
}

/// The code of a character that a descriptor may hold.
pub open spec fn char_code(c: char) -> u64 {
    first_from(input_charset(), c, 0) as u64
}

/// What the checksum has come to after some characters: the division so far, the classes of the
/// characters of an unfinished group of three, and how many these are.
pub struct ChecksumState {
    pub state: u64,
    pub classes: u64,
    pub count: nat,
}

/// The state after the characters of `s`.
pub open spec fn state_after(s: Seq<char>) -> ChecksumState
    decreases s.len(),
{
    if s.len() == 0 {
        ChecksumState { state: 1, classes: 0, count: 0 }
    } else {
        let before = state_after(s.drop_last());
        let code = char_code(s.last());
        let state = polymod(before.state, code & 31u64);
        let classes = (before.classes * 3 + (code >> 5u64)) as u64;
        if before.count == 2 {
            ChecksumState { state: polymod(state, classes), classes: 0, count: 0 }
        } else {
            ChecksumState { state, classes, count: before.count + 1 }
        }
    }
}

/// The state after `n` more zeros.
pub open spec fn after_zeros(state: u64, n: nat) -> u64
    decreases n,
{
    if n == 0 {
        state
    } else {
        polymod(after_zeros(state, (n - 1) as nat), 0)
    }
}

/// The number that the checksum of a text writes out.
pub open spec fn checksum_number(s: Seq<char>) -> u64 {
    let end = state_after(s);
    let state = if end.count > 0 {
        polymod(end.state, end.classes)
    } else {
        end.state
    };
    after_zeros(state, 8) ^ 1u64
}

/// Whether a descriptor may hold every character of a text.
pub open spec fn descriptor_text(s: Seq<char>) -> bool {
    forall|i: int| 0 <= i < s.len() ==> input_charset().contains(#[trigger] s[i])
}

/// The checksum of a descriptor: eight characters of five bits each.
pub open spec fn checksum(s: Seq<char>) -> Seq<char> {
    Seq::new(
        8,
        |j: int|
            checksum_charset()[((checksum_number(s) >> ((5 * (7 - j)) as u64)) & 31u64) as int],
    )
}

/// Computes the checksum of a descriptor.
pub fn compute_checksum(descriptor: &str) -> (result: Result<String, WalletError>)
    ensures
        match result {
            Ok(text) => descriptor_text(descriptor@) && text@ == checksum(descriptor@),
            Err(e) => !descriptor_text(descriptor@) && e == WalletError::InvalidDescriptor,
        },
{
    let charset = chars_of(
        "0123456789()[],'/*abcdefgh@:$%{}IJKLMNOPQRSTUVWXYZ&+-.;<=>?!^_|~ijklmnopqrstuvwxyzABCDEFGH`#\"\\ ",
    );
    let letters = chars_of("qpzry9x8gf2tvdw0s3jn54khce6mua7l");
    proof {
        reveal_strlit("qpzry9x8gf2tvdw0s3jn54khce6mua7l");
        reveal_strlit(
            "0123456789()[],'/*abcdefgh@:$%{}IJKLMNOPQRSTUVWXYZ&+-.;<=>?!^_|~ijklmnopqrstuvwxyzABCDEFGH`#\"\\ ",
        );
    }
    assert(charset@.len() == 95);
    let text = chars_of(descriptor);
    let mut state: u64 = 1;
    let mut classes: u64 = 0;
    let mut count: u64 = 0;
    let mut i: usize = 0;
    assert(text@.take(0) =~= Seq::<char>::empty());
    while i < text.len()
        invariant
            text@ == descriptor@,
            charset@ == input_charset(),
            charset@.len() == 95,
            i <= text.len(),
            state_after(text@.take(i as int)) == (ChecksumState {
                state,
                classes,
                count: count as nat,
            }),
            count < 3,
            count == 0 ==> classes == 0,
            count == 1 ==> classes < 3,
            count == 2 ==> classes < 9,
            descriptor_text(text@.take(i as int)),
        decreases text.len() - i,
    {
        let c = text[i];
        let at = find_char(&charset, c, 0);
        if at == charset.len() {
            proof {
                if descriptor_text(text@) {
                    assert(input_charset().contains(text@[i as int]));
                    let j = choose|j: int| 0 <= j < charset@.len() && charset@[j] == c;
                    assert(charset@[j] != c);
                }
            }
            return Err(WalletError::InvalidDescriptor);
        }
        let code = at as u64;
        proof {
            let longer = text@.take(i + 1);
            assert(longer.drop_last() =~= text@.take(i as int));
            assert(charset@[at as int] == c);
            assert forall|k: int| 0 <= k < longer.len() implies input_charset().contains(
                #[trigger] longer[k],
            ) by {
                if k < i {
                    assert(longer[k] == text@.take(i as int)[k]);
                }
            }
            assert(code >> 5u64 < 3u64) by (bit_vector)
                requires
                    code < 95u64,
            ;
        }
        state = polymod_step(state, code & 31u64);
        classes = classes * 3 + (code >> 5u64);
        if count == 2 {
            state = polymod_step(state, classes);
            classes = 0;
            count = 0;
        } else {
            count = count + 1;
        }
        i += 1;
    }
    assert(text@.take(i as int) =~= text@);
    if count > 0 {
        state = polymod_step(state, classes);
    }
    let ghost start = state;
    let mut n: usize = 0;
    while n < 8
        invariant
            n <= 8,
            state == after_zeros(start, n as nat),
        decreases 8 - n,
    {
        state = polymod_step(state, 0);
        n += 1;
    }
    let number = state ^ 1u64;
    assert(number == checksum_number(descriptor@));
    let mut out: Vec<char> = Vec::new();
    let mut j: u64 = 0;
    while j < 8
        invariant
            j <= 8,
            number == checksum_number(descriptor@),
            letters@ == checksum_charset(),
            letters@.len() == 32,
            out@ == checksum(descriptor@).take(j as int),
        decreases 8 - j,
    {
        let shift = 5 * (7 - j);
        let code = (number >> shift) & 31u64;
        assert((number >> shift) & 31u64 < 32u64) by (bit_vector);
        out.push(letters[code as usize]);
        assert(checksum(descriptor@).take(j + 1) =~= checksum(descriptor@).take(j as int).push(
            checksum(descriptor@)[j as int],
        ));
        j += 1;
    }
    assert(checksum(descriptor@).take(8) =~= checksum(descriptor@));
    Ok(text_of(&out))
}

/// The checksum takes in every character of a text: a further character moves the division on by its code within its
/// class, and every third one by the classes of the last three.
pub proof fn law_every_character_counts(s: Seq<char>, c: char)
    ensures
        state_after(Seq::<char>::empty()) == (ChecksumState { state: 1, classes: 0, count: 0 }),
        ({
            let before = state_after(s);
            let after = state_after(s.push(c));
            let code = first_from(input_charset(), c, 0) as u64;
            let moved = polymod(before.state, code & 31u64);
            let classes = (before.classes * 3 + (code >> 5u64)) as u64;
            &&& before.count < 2 ==> after == (ChecksumState {
                state: moved,
                classes,
                count: before.count + 1,
            })
            &&& before.count == 2 ==> after == (ChecksumState {
                state: polymod(moved, classes),
                classes: 0,
                count: 0,
            })
            &&& before.count <= 2
        }),
{
    assert(s.push(c).drop_last() =~= s);
    lemma_count_below_three(s);
}

proof fn lemma_count_below_three(s: Seq<char>)
    ensures
        state_after(s).count <= 2,
    decreases s.len(),
{
    if s.len() > 0 {
        lemma_count_below_three(s.drop_last());
    }
}

/// A state to which a constant is added where a bit is carried out.
#[verifier::opaque]
spec fn carried(state: u64, top: u64, bit: u64, constant: u64) -> u64 {
    if top & bit != 0 {
        state ^ constant
    } else {
        state
    }
}

proof fn lemma_carry(s: u64, t: u64, p: u64, q: u64, bit: u64, constant: u64)
    requires
        bit == 1 || bit == 2 || bit == 4 || bit == 8 || bit == 16,
    ensures
        carried(s ^ t, p ^ q, bit, constant) == carried(s, p, bit, constant) ^ carried(
            t,
            q,
            bit,
            constant,
        ),
{
    reveal(carried);
    assert((if (p ^ q) & bit != 0 {
        (s ^ t) ^ constant
    } else {
        s ^ t
    }) == (if p & bit != 0 {
        s ^ constant
    } else {
        s
    }) ^ (if q & bit != 0 {
        t ^ constant
    } else {
        t
    })) by (bit_vector)
        requires
            bit == 1 || bit == 2 || bit == 4 || bit == 8 || bit == 16,
    ;
}

/// A step of the division, carry by carry.
spec fn step_by_carries(state: u64, value: u64) -> u64 {
    let top = state >> 35u64;
    let s0 = ((state & 0x7_ffff_ffffu64) << 5u64) ^ value;
    let s1 = carried(s0, top, 1, 0xf5_dee5_1989);
    let s2 = carried(s1, top, 2, 0xa9_fdca_3312);
    let s3 = carried(s2, top, 4, 0x1b_ab10_e32d);
    let s4 = carried(s3, top, 8, 0x37_06b1_677a);
    carried(s4, top, 16, 0x64_4d62_6ffd)
}

proof fn lemma_step_by_carries(state: u64, value: u64)
    ensures
        polymod(state, value) == step_by_carries(state, value),
{
    reveal(carried);
}

proof fn lemma_division_is_linear(a: u64, b: u64, x: u64, y: u64)
    ensures
        polymod(a ^ b, x ^ y) == polymod(a, x) ^ polymod(b, y),
{
    lemma_step_by_carries(a, x);
    lemma_step_by_carries(b, y);
    lemma_step_by_carries(a ^ b, x ^ y);
    assert(step_by_carries(a ^ b, x ^ y) == step_by_carries(a, x) ^ step_by_carries(b, y)) by {
        let p = a >> 35u64;
        let q = b >> 35u64;
        assert((a ^ b) >> 35u64 == (a >> 35u64) ^ (b >> 35u64)) by (bit_vector);
        let s0 = ((a & 0x7_ffff_ffffu64) << 5u64) ^ x;
        let t0 = ((b & 0x7_ffff_ffffu64) << 5u64) ^ y;
        assert((((a ^ b) & 0x7_ffff_ffffu64) << 5u64) ^ (x ^ y) == (((a & 0x7_ffff_ffffu64) << 5u64)
            ^ x) ^ (((b & 0x7_ffff_ffffu64) << 5u64) ^ y)) by (bit_vector);
        let s1 = carried(s0, p, 1, 0xf5_dee5_1989);
        let t1 = carried(t0, q, 1, 0xf5_dee5_1989);
        lemma_carry(s0, t0, p, q, 1, 0xf5_dee5_1989);
        let s2 = carried(s1, p, 2, 0xa9_fdca_3312);
        let t2 = carried(t1, q, 2, 0xa9_fdca_3312);
        lemma_carry(s1, t1, p, q, 2, 0xa9_fdca_3312);
        let s3 = carried(s2, p, 4, 0x1b_ab10_e32d);
        let t3 = carried(t2, q, 4, 0x1b_ab10_e32d);
        lemma_carry(s2, t2, p, q, 4, 0x1b_ab10_e32d);
        let s4 = carried(s3, p, 8, 0x37_06b1_677a);
        let t4 = carried(t3, q, 8, 0x37_06b1_677a);
        lemma_carry(s3, t3, p, q, 8, 0x37_06b1_677a);
        lemma_carry(s4, t4, p, q, 16, 0x64_4d62_6ffd);
    }
}

/// A step of the division is linear: the step of a sum is the sum of the steps. With no bit to carry out it shifts
/// the state by five bits and takes in the value; each of the five bits that are carried out adds its own constant.
pub proof fn law_division_is_linear(a: u64, b: u64, x: u64, y: u64)
    ensures
        polymod(a ^ b, x ^ y) == polymod(a, x) ^ polymod(b, y),
        a < 0x8_0000_0000 ==> polymod(a, x) == (a << 5u64) ^ x,
        polymod(0x8_0000_0000, 0) == 0xf5_dee5_1989,
        polymod(0x10_0000_0000, 0) == 0xa9_fdca_3312,
        polymod(0x20_0000_0000, 0) == 0x1b_ab10_e32d,
        polymod(0x40_0000_0000, 0) == 0x37_06b1_677a,
        polymod(0x80_0000_0000, 0) == 0x64_4d62_6ffd,
{
    lemma_division_is_linear(a, b, x, y);
    assert(a < 0x8_0000_0000u64 ==> polymod(a, x) == (a << 5u64) ^ x) by (bit_vector);
    assert(polymod(0x8_0000_0000u64, 0) == 0xf5_dee5_1989u64 && polymod(0x10_0000_0000u64, 0)
        == 0xa9_fdca_3312u64 && polymod(0x20_0000_0000u64, 0) == 0x1b_ab10_e32du64 && polymod(
        0x40_0000_0000u64,
        0,
    ) == 0x37_06b1_677au64 && polymod(0x80_0000_0000u64, 0) == 0x64_4d62_6ffdu64) by (bit_vector);
}

/// A checksum has eight characters of its alphabet, which write out its 40 bits five at a time, the highest first. The
/// bits are what the division comes to with the classes of an unfinished group and eight zeros behind the text.
pub proof fn law_checksum_writes_its_number(s: Seq<char>, j: int, state: u64, n: nat)
    requires
        0 <= j < 8,
    ensures
        checksum(s).len() == 8,
        checksum(s)[j] == "qpzry9x8gf2tvdw0s3jn54khce6mua7l"@[((checksum_number(s) >> ((35 - 5 * j)
            as u64)) & 31u64) as int],
        ({
            let end = state_after(s);
            &&& end.count == 0 ==> checksum_number(s) == after_zeros(end.state, 8) ^ 1u64
            &&& end.count > 0 ==> checksum_number(s) == after_zeros(
                polymod(end.state, end.classes),
                8,
            ) ^ 1u64
        }),
        after_zeros(state, 0) == state,
        after_zeros(state, n + 1) == polymod(after_zeros(state, n), 0),
{
    assert(5 * (7 - j) == 35 - 5 * j);
}

} // verus!
