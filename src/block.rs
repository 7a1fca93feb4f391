use vstd::prelude::*;

verus! {

/// The erase-block sizes a flash medium can have: multiples of 4 KiB up to 64 KiB.
#[derive(Clone, Copy, Debug, PartialEq, Eq, Structural, PartialOrd, Ord, Hash)]
pub enum Size {
    B4K,
    B8K,
    B12K,
    B16K,
    B20K,
    B24K,
    B28K,
    B32K,
    B36K,
    B40K,
    B44K,
    B48K,
    B52K,
    B56K,
    B60K,
    B64K,
}

/// The smallest multiple of `b` that is at least `n` (for `b > 0`, `n >= 0`).
pub open spec fn round_up(n: int, b: int) -> int {
    if n % b == 0 {
        n
    } else {
        n - n % b + b
    }
}

/// `round_up(n, b)` is a multiple of `b`, is at least `n`, and no smaller multiple of `b`
/// reaches `n`.
pub proof fn lemma_round_up(n: int, b: int)
    requires
        n >= 0,
        b > 0,
    ensures
        round_up(n, b) % b == 0,
        n <= round_up(n, b) < n + b,
        forall|m: int| #![trigger m % b] m >= n && m % b == 0 ==> m >= round_up(n, b),
        n % b == 0 ==> round_up(n, b) == n,
{
    assert(round_up(n, b) % b == 0) by {
        if n % b != 0 {
            vstd::arithmetic::div_mod::lemma_fundamental_div_mod(n, b);
            vstd::arithmetic::div_mod::lemma_mod_multiples_basic(n / b + 1, b);
            assert(n - n % b + b == (n / b + 1) * b) by (nonlinear_arith)
                requires
                    n == b * (n / b) + n % b,
            ;
        }
    }
    assert forall|m: int| #![trigger m % b] m >= n && m % b == 0 implies m >= round_up(n, b) by {
        if n % b != 0 && m < round_up(n, b) {
            vstd::arithmetic::div_mod::lemma_fundamental_div_mod(n, b);
            vstd::arithmetic::div_mod::lemma_fundamental_div_mod(m, b);
            assert(m / b == n / b) by (nonlinear_arith)
                requires
                    n == b * (n / b) + n % b,
                    m == b * (m / b) + m % b,
                    0 < n % b < b,
                    m % b == 0,
                    n <= m < n - n % b + b,
            ;
        }
    }
}

impl Size {
    /// The size in bytes.
    pub open spec fn spec_bytes(self) -> nat {
        match self {
            Size::B4K => 4096,
            Size::B8K => 8192,
            Size::B12K => 12288,
            Size::B16K => 16384,
            Size::B20K => 20480,
            Size::B24K => 24576,
            Size::B28K => 28672,
            Size::B32K => 32768,
            Size::B36K => 36864,
            Size::B40K => 40960,
            Size::B44K => 45056,
            Size::B48K => 49152,
            Size::B52K => 53248,
            Size::B56K => 57344,
            Size::B60K => 61440,
            Size::B64K => 65536,
        }
    }

    /// Returns true if the given integer is a multiple of self.
    pub fn is_aligned(self, n: usize) -> (r: bool)
        ensures
            r == (n as int % self.spec_bytes() as int == 0),
    {
        let b = usize::from(self);
        n % b == 0
    }

    /// Returns Some(n rounded to the next multiple) of self,
    /// or None on overflow.
    pub fn align_up(self, n: usize) -> (r: Option<usize>)
        ensures
            r == (if round_up(n as int, self.spec_bytes() as int) <= usize::MAX {
                Some(round_up(n as int, self.spec_bytes() as int) as usize)
            } else {
                None
            }),
    {
        let b = usize::from(self);
        let rem = n % b;
        if rem == 0 {
            Some(n)
        } else {
            n.checked_add(b - rem)
        }
    }

    /// Tries to convert a number representing the block size
    /// into a Size variant.
    pub fn try_from_block_size(block_size: u32) -> (r: Option<Size>)
        ensures
            r is Some <==> block_size < 16,
            r matches Some(s) ==> s.spec_bytes() == (if block_size == 0 {
                65536
            } else {
                4096 * block_size
            }),
    {
        match block_size {
            0 => Some(Size::B64K),
            1 => Some(Size::B4K),
            2 => Some(Size::B8K),
            3 => Some(Size::B12K),
            4 => Some(Size::B16K),
            5 => Some(Size::B20K),
            6 => Some(Size::B24K),
            7 => Some(Size::B28K),
            8 => Some(Size::B32K),
            9 => Some(Size::B36K),
            10 => Some(Size::B40K),
            11 => Some(Size::B44K),
            12 => Some(Size::B48K),
            13 => Some(Size::B52K),
            14 => Some(Size::B56K),
            15 => Some(Size::B60K),
            _ => None,
        }
    }
}

impl From<Size> for usize {
    /// Conversions from Size to usize are infallible.
    fn from(s: Size) -> (r: usize)
        ensures
            r == s.spec_bytes(),
    {
        match s {
            Size::B4K => 4096,
            Size::B8K => 8192,
            Size::B12K => 12288,
            Size::B16K => 16384,
            Size::B20K => 20480,
            Size::B24K => 24576,
            Size::B28K => 28672,
            Size::B32K => 32768,
            Size::B36K => 36864,
            Size::B40K => 40960,
            Size::B44K => 45056,
            Size::B48K => 49152,
            Size::B52K => 53248,
            Size::B56K => 57344,
            Size::B60K => 61440,
            Size::B64K => 65536,
        }
    }
}

impl vstd::std_specs::convert::FromSpecImpl<Size> for usize {
    open spec fn obeys_from_spec() -> bool {
        true
    }

    open spec fn from_spec(s: Size) -> usize {
        s.spec_bytes() as usize
    }
}

} // verus!
