use vstd::prelude::*;
use vstd::string::StringExecFns;

verus! {

/// The running sum of the Internet checksum after adding `data`: bytes are
/// taken in pairs as big-endian 16-bit words; `odd` says that the next byte
/// is the low half of a word.
pub open spec fn checksum_sum(sum: nat, odd: bool, data: Seq<u8>) -> nat
    decreases data.len(),
{
    if data.len() == 0 {
        sum
    } else {
        checksum_sum(
            sum + if odd {
                data[0] as nat
            } else {
                data[0] as nat * 256
            },
            !odd,
            data.skip(1),
        )
    }
}

/// One step of folding the carries of a sum into its low 16 bits.
pub open spec fn fold_once(x: nat) -> nat {
    if x > 0xffff {
        x / 65536 + x % 65536
    } else {
        x
    }
}

/// The checksum of a 32-bit running sum: the complement of its 16-bit
/// end-around-carry fold (two folds always suffice for 32 bits).
pub open spec fn checksum_value(sum: nat) -> nat {
    (0xffff - fold_once(fold_once(sum))) as nat
}

/// Adding two runs one after the other is adding their concatenation.
pub proof fn lemma_checksum_concat(sum: nat, odd: bool, a: Seq<u8>, b: Seq<u8>)
    ensures
        checksum_sum(sum, odd, a + b) == checksum_sum(
            checksum_sum(sum, odd, a),
            odd != (a.len() % 2 == 1),
            b,
        ),
    decreases a.len(),
{
    if a.len() == 0 {
        assert(a + b =~= b);
    } else {
        let next = sum + if odd {
            a[0] as nat
        } else {
            a[0] as nat * 256
        };
        lemma_checksum_concat(next, !odd, a.skip(1), b);
        assert((a + b).skip(1) =~= a.skip(1) + b);
    }
}

pub proof fn lemma_checksum_sum_bound(sum: nat, odd: bool, data: Seq<u8>)
    ensures
        sum <= checksum_sum(sum, odd, data) <= sum + 65280 * data.len(),
    decreases data.len(),
{
    if data.len() > 0 {
        let next = sum + if odd {
            data[0] as nat
        } else {
            data[0] as nat * 256
        };
        lemma_checksum_sum_bound(next, !odd, data.skip(1));
    }
}

/// The Internet checksum (RFC 1071) of a run of bytes.
pub struct InternetChecksum {
    sum: u32,
    parity: bool,
}

impl InternetChecksum {
    pub closed spec fn sum(&self) -> nat {
        self.sum as nat
    }

    /// Whether the next byte is the low half of a word.
    pub closed spec fn odd(&self) -> bool {
        self.parity
    }

    pub fn new(initial_sum: u32) -> (r: Self)
        ensures
            r.sum() == initial_sum,
            !r.odd(),
    {
        InternetChecksum { sum: initial_sum, parity: false }
    }

    /// Adds `data` to the running sum.
    pub fn add(&mut self, data: &[u8])
        requires
            old(self).sum() + 65280 * data@.len() <= u32::MAX,
        ensures
            final(self).sum() == checksum_sum(old(self).sum(), old(self).odd(), data@),
            final(self).odd() == (old(self).odd() != (data@.len() % 2 == 1)),
    {
        let mut i: usize = 0;
        assert(data@.skip(0) =~= data@);
        while i < data.len()
            invariant
                i <= data@.len(),
                checksum_sum(self.sum as nat, self.parity, data@.skip(i as int)) == checksum_sum(
                    old(self).sum(),
                    old(self).odd(),
                    data@,
                ),
                self.parity == (old(self).odd() != (i % 2 == 1)),
                self.sum + 65280 * (data@.len() - i) <= u32::MAX,
            decreases data@.len() - i,
        {
            let byte = data[i];
            let val: u32 = if !self.parity { (byte as u32) * 256 } else { byte as u32 };
            assert(data@.skip(i as int).skip(1) =~= data@.skip(i + 1));
            self.sum = self.sum + val;
            self.parity = !self.parity;
            i = i + 1;
        }
        assert(data@.skip(data@.len() as int) =~= Seq::<u8>::empty());
    }

    /// The checksum of everything added so far.
    pub fn value(&self) -> (r: u16)
        ensures
            r == checksum_value(self.sum()),
    {
        let mut ret: u32 = self.sum;
        if ret > 0xffff {
            ret = ret / 65536 + ret % 65536;
        }
        if ret > 0xffff {
            ret = ret / 65536 + ret % 65536;
        }
        0xffff - ret as u16
    }
}

impl Default for InternetChecksum {
    fn default() -> (r: Self)
        ensures
            r.sum() == 0,
            !r.odd(),
    {
        InternetChecksum::new(0)
    }
}

/// The character of digit `d` (below 16), lower case.
pub open spec fn digit_char(d: nat) -> char {
    if d < 10 {
        (('0' as nat) + d) as char
    } else {
        (('a' as nat) + d - 10) as char
    }
}

/// The decimal digits of `n`, most significant first.
pub open spec fn dec_digits(n: nat) -> Seq<char>
    decreases n,
{
    if n < 10 {
        seq![digit_char(n)]
    } else {
        dec_digits(n / 10).push(digit_char(n % 10))
    }
}

/// The hexadecimal digits of `n`, lower case, most significant first.
pub open spec fn hex_digits(n: nat) -> Seq<char>
    decreases n,
{
    if n < 16 {
        seq![digit_char(n)]
    } else {
        hex_digits(n / 16).push(digit_char(n % 16))
    }
}

fn digit_text(d: u32) -> (r: &'static str)
    requires
        d < 16,
    ensures
        r@ == seq![digit_char(d as nat)],
{
    proof {
        reveal_strlit("0");
        reveal_strlit("1");
        reveal_strlit("2");
        reveal_strlit("3");
        reveal_strlit("4");
        reveal_strlit("5");
        reveal_strlit("6");
        reveal_strlit("7");
        reveal_strlit("8");
        reveal_strlit("9");
        reveal_strlit("a");
        reveal_strlit("b");
        reveal_strlit("c");
        reveal_strlit("d");
        reveal_strlit("e");
        reveal_strlit("f");
    }
    let r = match d {
        0 => "0",
        1 => "1",
        2 => "2",
        3 => "3",
        4 => "4",
        5 => "5",
        6 => "6",
        7 => "7",
        8 => "8",
        9 => "9",
        10 => "a",
        11 => "b",
        12 => "c",
        13 => "d",
        14 => "e",
        _ => "f",
    };
    assert(r@ =~= seq![digit_char(d as nat)]);
    r
}

pub open spec fn bool_text(b: bool) -> Seq<char> {
    if b {
        "true"@
    } else {
        "false"@
    }
}

/// `true` or `false`.
pub fn bool_str(b: bool) -> (r: &'static str)
    ensures
        r@ == bool_text(b),
{
    if b {
        "true"
    } else {
        "false"
    }
}

/// `n` in decimal.
pub fn dec_string(n: u32) -> (r: String)
    ensures
        r@ == dec_digits(n as nat),
    decreases n,
{
    if n < 10 {
        String::from_str(digit_text(n))
    } else {
        let mut r = dec_string(n / 10);
        r.append(digit_text(n % 10));
        r
    }
}

/// `n` in hexadecimal, lower case.
pub fn hex_string(n: u32) -> (r: String)
    ensures
        r@ == hex_digits(n as nat),
    decreases n,
{
    if n < 16 {
        String::from_str(digit_text(n))
    } else {
        let mut r = hex_string(n / 16);
        r.append(digit_text(n % 16));
        r
    }
}

} // verus!
