//! The logical drives of a system, `A:\` to `Z:\` and beyond, given by the
//! bit mask in which the system reports them: bit 0 for `A:`, bit 1 for
//! `B:`, and so on.
use vstd::prelude::*;

verus! {

/// The letter of the drive that bit 0 of a mask stands for.
pub open spec fn first_letter() -> u8 {
    65
}

/// One past the letter of the drive that bit 31 of a mask stands for.
pub open spec fn end_letter() -> u8 {
    97
}

/// The drive letters of the set bits among the `n` lowest bits of `mask`,
/// bit 0 being `letter`, in the order of the bits.
pub open spec fn drive_letters(mask: u32, letter: int, n: nat) -> Seq<char>
    decreases n,
{
    if n == 0 {
        Seq::empty()
    } else {
        let rest = drive_letters(mask >> 1, letter + 1, (n - 1) as nat);
        if mask & 1 != 0 {
            seq![letter as char] + rest
        } else {
            rest
        }
    }
}

/// The root path of the drive `letter`: `X:\`.
pub open spec fn drive_root(letter: char) -> Seq<char> {
    seq![letter, ':', '\\']
}

/// A logical drive, with its root path.
#[derive(Debug)]
pub struct LogicalDrive {
    pub drive_letter: char,
    path_str: String,
}

impl LogicalDrive {
    /// The letter of the drive.
    pub closed spec fn letter(self) -> char {
        self.drive_letter
    }

    /// The root path of the drive.
    pub closed spec fn root(self) -> Seq<char> {
        self.path_str@
    }

    /// The drive `drive_letter`, with its root `X:\`.
    pub fn new(drive_letter: char) -> (r: LogicalDrive)
        ensures
            r.letter() == drive_letter,
            r.root() == drive_root(drive_letter),
    {
        let mut path_str = String::new();
        path_str.push(drive_letter);
        path_str.push(':');
        path_str.push('\\');
        assert(path_str@ =~= drive_root(drive_letter));
        LogicalDrive { drive_letter, path_str }
    }

    /// The root path of the drive: `X:\`.
    pub fn path(&self) -> (r: &str)
        ensures
            r@ == self.root(),
    {
        self.path_str.as_str()
    }
}

/// The drives of a mask that are not handed out yet, lowest letter first.
#[derive(Debug)]
pub struct LogicalDriveIter {
    mask: u32,
    drive_letter: u8,
}

impl View for LogicalDriveIter {
    type V = Seq<char>;

    /// The letters of the drives that are still to come, in order.
    closed spec fn view(&self) -> Seq<char> {
        drive_letters(self.mask, self.drive_letter as int, (end_letter() - self.drive_letter) as nat)
    }
}

/// A mask with no bit set stands for no drives.
proof fn lemma_drive_letters_zero(letter: int, n: nat)
    ensures
        drive_letters(0, letter, n) == Seq::<char>::empty(),
    decreases n,
{
    if n > 0 {
        assert(0u32 >> 1 == 0u32 && 0u32 & 1 == 0u32) by (bit_vector);
        lemma_drive_letters_zero(letter + 1, (n - 1) as nat);
    }
}

/// Bit `i + 1` of a mask is bit `i` of the mask shifted right by one.
proof fn lemma_shifted_bit(m: u32, i: u32)
    requires
        i < 31,
    ensures
        ((m >> 1) & (1u32 << i) != 0) == (m & (1u32 << ((i + 1) as u32)) != 0),
        (m & 1 != 0) == (m & (1u32 << 0u32) != 0),
{
    assert(((m >> 1) & (1u32 << i) != 0) == (m & (1u32 << ((i + 1) as u32)) != 0)) by (bit_vector)
        requires
            i < 31,
    ;
    assert((m & 1 != 0) == (m & (1u32 << 0u32) != 0)) by (bit_vector);
}

/// The drives of a mask are the letters of its set bits, lowest bit first:
/// each letter lies in the range of the bits read, the letters rise, and
/// the letter of bit `i` is there exactly when bit `i` is set.
pub proof fn law_drive_letters_are_the_set_bits(mask: u32, letter: int, n: nat)
    requires
        0 <= letter,
        letter + n <= 128,
        n <= 32,
    ensures
        ({
            let s = drive_letters(mask, letter, n);
            &&& forall|j: int| 0 <= j < s.len() ==> letter <= #[trigger] (s[j] as int) < letter + n
            &&& forall|a: int, b: int| 0 <= a < b < s.len() ==> (s[a] as int) < (s[b] as int)
            &&& forall|i: int|
                0 <= i < n ==> (#[trigger] s.contains((letter + i) as char) <==> mask & (1u32 << (
                i as u32)) != 0)
        }),
    decreases n,
{
    let s = drive_letters(mask, letter, n);
    if n > 0 {
        let rest = drive_letters(mask >> 1, letter + 1, (n - 1) as nat);
        law_drive_letters_are_the_set_bits(mask >> 1, letter + 1, (n - 1) as nat);
        let first: Seq<char> = if mask & 1 != 0 {
            seq![letter as char]
        } else {
            Seq::empty()
        };
        assert(s == first + rest);
        assert forall|j: int| 0 <= j < s.len() implies letter <= #[trigger] (s[j] as int) < letter
            + n by {
            if j >= first.len() {
                assert(s[j] == rest[j - first.len()]);
            }
        }
        assert forall|a: int, b: int| 0 <= a < b < s.len() implies (s[a] as int) < (s[b] as int) by {
            if a >= first.len() {
                assert(s[a] == rest[a - first.len()]);
            }
            assert(s[b] == rest[b - first.len()]);
        }
        assert forall|i: int| 0 <= i < n implies (#[trigger] s.contains((letter + i) as char) <==> mask
            & (1u32 << (i as u32)) != 0) by {
            let c = (letter + i) as char;
            if i == 0 {
                lemma_shifted_bit(mask, 0);
                if mask & 1 != 0 {
                    assert(s[0] == c);
                }
                if s.contains(c) {
                    let j = choose|j: int| 0 <= j < s.len() && s[j] == c;
                    if j >= first.len() {
                        assert(s[j] == rest[j - first.len()]);
                    }
                }
            } else {
                lemma_shifted_bit(mask, (i - 1) as u32);
                assert(rest.contains((letter + 1 + (i - 1)) as char) <==> (mask >> 1) & (1u32 << ((i
                    - 1) as u32)) != 0);
                if rest.contains(c) {
                    let j = choose|j: int| 0 <= j < rest.len() && rest[j] == c;
                    assert(s[j + first.len()] == c);
                }
                if s.contains(c) {
                    let j = choose|j: int| 0 <= j < s.len() && s[j] == c;
                    if j < first.len() {
                        assert(s[j] == letter as char);
                    } else {
                        assert(s[j] == rest[j - first.len()]);
                    }
                }
            }
        }
    }
}

impl LogicalDriveIter {
    /// The letter of bit 0 lies between `A` and the letter after bit 31's,
    /// and the mask has no bits beyond those that the letters up to there
    /// stand for.
    pub closed spec fn wf(self) -> bool {
        &&& first_letter() <= self.drive_letter <= end_letter()
        &&& (self.mask as u64) < (1u64 << ((end_letter() - self.drive_letter) as u64))
    }

    /// The drives whose bits are set in `mask`.
    pub fn with_mask(mask: u32) -> (r: LogicalDriveIter)
        ensures
            r.wf(),
            r@ == drive_letters(mask, first_letter() as int, 32),
    {
        assert((mask as u64) < (1u64 << 32u64)) by (bit_vector);
        LogicalDriveIter { mask, drive_letter: 65 }
    }

    /// The next drive, or `None` when all have been handed out.
    pub fn next(&mut self) -> (r: Option<LogicalDrive>)
        requires
            old(self).wf(),
        ensures
            final(self).wf(),
            old(self)@.len() == 0 ==> r is None && final(self)@ == old(self)@,
            old(self)@.len() > 0 ==> (r matches Some(d) && d.letter() == old(self)@[0]
                && d.root() == drive_root(old(self)@[0]) && final(self)@ == old(self)@.drop_first()),
    {
        while self.mask != 0
            invariant
                self.wf(),
                self@ == old(self)@,
            decreases self.mask,
        {
            let m = self.mask;
            let l = self.drive_letter;
            let k: u64 = (97 - l) as u64;
            assert(m != 0 && (m as u64) < (1u64 << k) ==> k >= 1) by (bit_vector);
            assert(k >= 1 && (m as u64) < (1u64 << k) ==> ((m >> 1) as u64) < (1u64 << ((k - 1)
                as u64))) by (bit_vector);
            assert(m != 0 ==> m >> 1 < m) by (bit_vector);
            assert(drive_letters(m, l as int, k as nat) == {
                let rest = drive_letters(m >> 1, l + 1, (k - 1) as nat);
                if m & 1 != 0 {
                    seq![l as char] + rest
                } else {
                    rest
                }
            });
            if self.mask & 1 != 0 {
                let drive_letter = self.drive_letter as char;
                self.mask = self.mask >> 1;
                self.drive_letter = self.drive_letter + 1;
                assert(old(self)@.drop_first() =~= self@);
                return Some(LogicalDrive::new(drive_letter));
            }
            self.mask = self.mask >> 1;
            self.drive_letter = self.drive_letter + 1;
        }
        proof {
            lemma_drive_letters_zero(self.drive_letter as int, (97 - self.drive_letter) as nat);
        }
        None
    }
}

} // verus!
