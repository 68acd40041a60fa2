//! FAT16 directory entries: the standard 8.3 name, the packed date and
//! time stamps, and the 32-byte on-disk entry.

use vstd::prelude::*;
use crate::block::FsError;
use crate::mbr::{u32_le, u32_from_le};

verus! {

/// A calendar timestamp as the filesystem records it.
#[derive(Clone, Copy, Debug, PartialEq, Eq, Structural)]
pub struct FsTime {
    /// The year.
    pub year: u16,
    /// The month, 1 to 12.
    pub month: u8,
    /// The day, 1 to 31.
    pub day: u8,
    /// The hour, 0 to 23.
    pub hour: u8,
    /// The minute, 0 to 59.
    pub minute: u8,
    /// The second, 0 to 59.
    pub second: u8,
}

impl FsTime {
    /// A timestamp from its parts.
    pub fn new(year: u16, month: u8, day: u8, hour: u8, minute: u8, second: u8) -> (r: FsTime)
        ensures
            r == (FsTime { year, month, day, hour, minute, second }),
    {
        FsTime { year, month, day, hour, minute, second }
    }

    /// The fallback timestamp for an invalid on-disk stamp: the epoch.
    pub open spec fn spec_epoch() -> FsTime {
        FsTime { year: 1970, month: 1, day: 1, hour: 0, minute: 0, second: 0 }
    }

    /// The fallback timestamp for an invalid on-disk stamp: the epoch.
    pub fn epoch() -> (r: FsTime)
        ensures
            r == FsTime::spec_epoch(),
    {
        FsTime { year: 1970, month: 1, day: 1, hour: 0, minute: 0, second: 0 }
    }
}

/// Whether the year has a leap day, in the proleptic Gregorian calendar.
pub open spec fn is_leap_year(y: int) -> bool {
    y % 4 == 0 && (y % 100 != 0 || y % 400 == 0)
}

/// How many days the month holds.
pub open spec fn days_in_month(y: int, m: int) -> int {
    if m == 1 || m == 3 || m == 5 || m == 7 || m == 8 || m == 10 || m == 12 {
        31
    } else if m == 4 || m == 6 || m == 9 || m == 11 {
        30
    } else if is_leap_year(y) {
        29
    } else {
        28
    }
}

/// Whether the parts name a real calendar moment.
pub open spec fn valid_datetime(y: int, mo: int, d: int, h: int, mi: int, s: int) -> bool {
    &&& 1 <= mo <= 12
    &&& 1 <= d <= days_in_month(y, mo)
    &&& 0 <= h < 24
    &&& 0 <= mi < 60
    &&& 0 <= s < 60
}

/// Whether the parts name a single calendar moment.
///
/// Relies on chrono's `TimeZone::with_ymd_and_hms` on `Utc`: it builds
/// the moment from `NaiveDate::from_ymd_opt` and `and_hms_opt`, which
/// accept exactly the proleptic Gregorian calendar dates and in-range
/// times, and for `Utc` a valid moment is always a single one.
#[verifier::external_body]
fn datetime_is_single(year: u16, month: u8, day: u8, hour: u8, minute: u8, second: u8) -> (r: bool)
    requires
        1970 <= year <= 2107,
    ensures
        r == valid_datetime(
            year as int,
            month as int,
            day as int,
            hour as int,
            minute as int,
            second as int,
        ),
{
    matches!(
        chrono::TimeZone::with_ymd_and_hms(
            &chrono::Utc,
            year as i32,
            month as u32,
            day as u32,
            hour as u32,
            minute as u32,
            second as u32,
        ),
        chrono::LocalResult::Single(_)
    )
}

/// The timestamp parts a packed FAT date/time word spells: the high half
/// is the date (year offset from 1980, month, day), the low half the
/// time (hours, minutes, two-second steps).
pub open spec fn spec_fat_time_parts(time: u32) -> FsTime {
    let date = (time >> 16) as u16;
    let t = (time & 0xFFFF) as u16;
    FsTime {
        year: (((date >> 9) & 0x7F) + 1980) as u16,
        month: ((date >> 5) & 0xF) as u8,
        day: (date & 0x1F) as u8,
        hour: ((t >> 11) & 0x1F) as u8,
        minute: ((t >> 5) & 0x3F) as u8,
        second: ((t & 0x1F) * 2) as u8,
    }
}

/// The decoded stamp, falling back to the epoch when the packed word
/// names no real moment.
pub open spec fn spec_fat_decode(time: u32) -> FsTime {
    if valid_datetime(
        spec_fat_time_parts(time).year as int,
        spec_fat_time_parts(time).month as int,
        spec_fat_time_parts(time).day as int,
        spec_fat_time_parts(time).hour as int,
        spec_fat_time_parts(time).minute as int,
        spec_fat_time_parts(time).second as int,
    ) {
        spec_fat_time_parts(time)
    } else {
        FsTime::spec_epoch()
    }
}

/// Decode a packed FAT date/time word; a stamp that names no real
/// moment falls back to the epoch.
pub fn parse_datetime(time: u32) -> (r: FsTime)
    ensures
        r == spec_fat_decode(time),
{
    let date: u16 = (time >> 16) as u16;
    let t: u16 = (time & 0xFFFF) as u16;
    proof {
        assert((date >> 9) & 0x7F < 0x80) by (bit_vector);
        assert((date >> 5) & 0xF < 0x10) by (bit_vector);
        assert(date & 0x1F < 0x20) by (bit_vector);
        assert((t >> 11) & 0x1F < 0x20) by (bit_vector);
        assert((t >> 5) & 0x3F < 0x40) by (bit_vector);
        assert(t & 0x1F < 0x20) by (bit_vector);
    }
    let year: u16 = ((date >> 9) & 0x7F) + 1980;
    let month: u8 = ((date >> 5) & 0xF) as u8;
    let day: u8 = (date & 0x1F) as u8;
    let hour: u8 = ((t >> 11) & 0x1F) as u8;
    let minute: u8 = ((t >> 5) & 0x3F) as u8;
    let second: u8 = ((t & 0x1F) * 2) as u8;
    if datetime_is_single(year, month, day, hour, minute, second) {
        FsTime { year, month, day, hour, minute, second }
    } else {
        FsTime::epoch()
    }
}

/// File attribute bits, as the entry's attribute byte packs them.
#[derive(Clone, Copy, Debug, PartialEq, Eq, Structural)]
pub struct Attributes(pub u8);

/// The read-only attribute bit.
pub const ATTR_READ_ONLY: u8 = 0x01;

/// The hidden attribute bit.
pub const ATTR_HIDDEN: u8 = 0x02;

/// The system attribute bit.
pub const ATTR_SYSTEM: u8 = 0x04;

/// The volume-id attribute bit.
pub const ATTR_VOLUME_ID: u8 = 0x08;

/// The directory attribute bit.
pub const ATTR_DIRECTORY: u8 = 0x10;

/// The archive attribute bit.
pub const ATTR_ARCHIVE: u8 = 0x20;

/// The long-file-name marker: the low four bits together.
pub const ATTR_LFN: u8 = 0x0F;

/// The bits an attribute byte may carry.
pub const ATTR_ALL: u8 = 0x3F;

impl Attributes {
    /// Whether every bit of `mask` is set.
    pub fn contains(&self, mask: u8) -> (r: bool)
        ensures
            r == (self.0 & mask == mask),
    {
        self.0 & mask == mask
    }
}

/// A cluster number, with the conventional sentinel values.
#[derive(Clone, Copy, Debug, PartialEq, Eq, Structural)]
pub struct Cluster(pub u32);

/// Sentinel: an invalid cluster value.
pub const CLUSTER_INVALID: u32 = 0xFFFF_FFF6;

/// Sentinel: a bad cluster.
pub const CLUSTER_BAD: u32 = 0xFFFF_FFF7;

/// Sentinel: an empty cluster.
pub const CLUSTER_EMPTY: u32 = 0x0000_0000;

/// Sentinel: the cluster standing for the root directory, which has no
/// number of its own in FAT16.
pub const CLUSTER_ROOT_DIR: u32 = 0xFFFF_FFFC;

/// Sentinel: the final cluster of a file.
pub const CLUSTER_END_OF_FILE: u32 = 0xFFFF_FFFF;

/// A standard 8.3 file name: eight name bytes and three extension
/// bytes, space padded.
#[derive(Clone, Copy, Debug, PartialEq, Eq)]
pub struct ShortFileName {
    /// The name part.
    pub name: [u8; 8],
    /// The extension part.
    pub ext: [u8; 3],
}

impl ShortFileName {
    /// Split eleven packed bytes into name and extension.
    pub fn new(buf: &[u8]) -> (r: ShortFileName)
        requires
            buf@.len() >= 11,
        ensures
            r.name@ == buf@.subrange(0, 8),
            r.ext@ == buf@.subrange(8, 11),
    {
        let name = [buf[0], buf[1], buf[2], buf[3], buf[4], buf[5], buf[6], buf[7]];
        let ext = [buf[8], buf[9], buf[10]];
        proof {
            assert(name@ =~= buf@.subrange(0, 8));
            assert(ext@ =~= buf@.subrange(8, 11));
        }
        ShortFileName { name, ext }
    }

    /// The name part's bytes.
    pub fn basename(&self) -> (r: Vec<u8>)
        ensures
            r@ == self.name@,
    {
        let mut out: Vec<u8> = Vec::new();
        let mut i: usize = 0;
        while i < 8
            invariant
                i <= 8,
                out@ == self.name@.subrange(0, i as int),
            decreases 8 - i,
        {
            out.push(self.name[i]);
            i = i + 1;
        }
        proof {
            assert(out@ =~= self.name@);
        }
        out
    }

    /// The extension part's bytes.
    pub fn extension(&self) -> (r: Vec<u8>)
        ensures
            r@ == self.ext@,
    {
        let mut out: Vec<u8> = Vec::new();
        let mut i: usize = 0;
        while i < 3
            invariant
                i <= 3,
                out@ == self.ext@.subrange(0, i as int),
            decreases 3 - i,
        {
            out.push(self.ext[i]);
            i = i + 1;
        }
        proof {
            assert(out@ =~= self.ext@);
        }
        out
    }

    /// Whether this entry marks the end of a directory.
    pub fn is_eod(&self) -> (r: bool)
        ensures
            r == (self.name@[0] == 0x00 && self.ext@[0] == 0x00),
    {
        self.name[0] == 0x00 && self.ext[0] == 0x00
    }

    /// Whether this entry was deleted.
    pub fn is_unused(&self) -> (r: bool)
        ensures
            r == (self.name@[0] == 0xE5),
    {
        self.name[0] == 0xE5
    }

    /// Whether two names spell the same file.
    pub fn matches(&self, sfn: &ShortFileName) -> (r: bool)
        ensures
            r == (self.name@ == sfn.name@ && self.ext@ == sfn.ext@),
    {
        let mut i: usize = 0;
        while i < 8
            invariant
                i <= 8,
                forall|j: int| 0 <= j < i ==> self.name@[j] == sfn.name@[j],
            decreases 8 - i,
        {
            if self.name[i] != sfn.name[i] {
                proof {
                    assert(self.name@[i as int] != sfn.name@[i as int]);
                }
                return false;
            }
            i = i + 1;
        }
        let mut i: usize = 0;
        while i < 3
            invariant
                i <= 3,
                forall|j: int| 0 <= j < 8 ==> self.name@[j] == sfn.name@[j],
                forall|j: int| 0 <= j < i ==> self.ext@[j] == sfn.ext@[j],
            decreases 3 - i,
        {
            if self.ext[i] != sfn.ext[i] {
                proof {
                    assert(self.ext@[i as int] != sfn.ext@[i as int]);
                }
                return false;
            }
            i = i + 1;
        }
        proof {
            assert(self.name@ =~= sfn.name@);
            assert(self.ext@ =~= sfn.ext@);
        }
        true
    }

    /// Parse a short file name from a path component: upper-case it,
    /// split the extension at the first period, refuse what 8.3 cannot
    /// spell, and pad both parts with spaces.
    pub fn parse(name: &[u8]) -> (r: Result<ShortFileName, FsError>)
        ensures
            ({
                let u = upper_seq(name@);
                &&& (name@.len() == 0 <==> r == Err::<ShortFileName, FsError>(
                    FsError::FilenameEmpty,
                ))
                &&& (name@.len() > 0 && u.contains(0x20) ==> r == Err::<ShortFileName, FsError>(
                    FsError::MisplacedPeriod,
                ))
                &&& (r matches Ok(f) ==> {
                    let base = dot_prefix(u);
                    &&& base.len() <= 8
                    &&& dot_ext(u).len() <= 3
                    &&& f.name@ == pad_spaces(base, 8)
                    &&& f.ext@ == pad_spaces(dot_ext(u), 3)
                })
                &&& (r == Err::<ShortFileName, FsError>(FsError::NameTooLong) ==> dot_prefix(
                    u,
                ).len() > 8 || dot_ext(u).len() > 3)
                &&& (r == Err::<ShortFileName, FsError>(FsError::InvalidCharacter) ==> exists|
                    j: int,
                |
                    0 <= j < dot_prefix(u).len() && spec_forbidden_byte(dot_prefix(u)[j]))
                // A well-formed component always parses.
                &&& (name@.len() > 0 && !u.contains(0x20) && dot_prefix(u).len() <= 8 && dot_ext(
                    u,
                ).len() <= 3 && (forall|j: int|
                    0 <= j < dot_prefix(u).len() ==> !spec_forbidden_byte(
                        #[trigger] dot_prefix(u)[j],
                    )) ==> r is Ok)
            }),
    {
        if name.len() == 0 {
            return Err(FsError::FilenameEmpty);
        }
        // Upper-case the whole component.
        let mut upper: Vec<u8> = Vec::new();
        let mut i: usize = 0;
        while i < name.len()
            invariant
                i <= name@.len(),
                upper@ == upper_seq(name@).subrange(0, i as int),
            decreases name@.len() - i,
        {
            upper.push(upper_byte_exec(name[i]));
            proof {
                assert(upper@ =~= upper_seq(name@).subrange(0, i + 1));
            }
            i = i + 1;
        }
        proof {
            assert(upper@ =~= upper_seq(name@));
        }
        // A space cannot appear in a path component.
        let mut i: usize = 0;
        while i < upper.len()
            invariant
                name@.len() > 0,
                upper@ == upper_seq(name@),
                i <= upper@.len(),
                forall|j: int| 0 <= j < i ==> upper@[j] != 0x20,
            decreases upper@.len() - i,
        {
            if upper[i] == 0x20 {
                proof {
                    assert(upper@.contains(0x20));
                }
                return Err(FsError::MisplacedPeriod);
            }
            i = i + 1;
        }
        proof {
            assert(!upper@.contains(0x20)) by {
                if upper@.contains(0x20) {
                    let w = choose|j: int| 0 <= j < upper@.len() && upper@[j] == 0x20;
                    assert(false);
                }
            }
        }
        // Split at the first period.
        let mut base_len: usize = upper.len();
        let mut i: usize = 0;
        while i < upper.len() && base_len == upper.len()
            invariant
                i <= upper@.len(),
                base_len == upper@.len() || (base_len < upper@.len() && upper@[base_len as int]
                    == 0x2E),
                forall|j: int| 0 <= j < i && j < base_len ==> upper@[j] != 0x2E,
                base_len == upper@.len() ==> forall|j: int| 0 <= j < i ==> upper@[j] != 0x2E,
                base_len < upper@.len() ==> base_len <= i,
                base_len < upper@.len() ==> forall|j: int| 0 <= j < base_len ==> upper@[j] != 0x2E,
            decreases upper@.len() - i + (if base_len == upper@.len() {
                1int
            } else {
                0int
            }),
        {
            if upper[i] == 0x2E {
                base_len = i;
            } else {
                i = i + 1;
            }
        }
        proof {
            lemma_dot_prefix_split(upper@, base_len as int);
        }
        // The extension runs from past the period to the next one.
        let ext_start: usize = if base_len < upper.len() {
            base_len + 1
        } else {
            upper.len()
        };
        let mut ext_end: usize = ext_start;
        let mut scanning: bool = true;
        while ext_end < upper.len() && scanning
            invariant
                ext_start <= ext_end <= upper@.len(),
                forall|j: int| ext_start <= j < ext_end ==> upper@[j] != 0x2E,
                !scanning ==> ext_end < upper@.len() && upper@[ext_end as int] == 0x2E,
            decreases upper@.len() - ext_end + (if scanning {
                1int
            } else {
                0int
            }),
        {
            if upper[ext_end] == 0x2E {
                scanning = false;
            } else {
                ext_end = ext_end + 1;
            }
        }
        proof {
            lemma_after_dot_split(upper@, base_len as int);
            if base_len < upper@.len() {
                let tail = upper@.subrange(ext_start as int, upper@.len() as int);
                assert forall|j: int| 0 <= j < ext_end - ext_start implies tail[j] != 0x2E by {
                    assert(tail[j] == upper@[ext_start + j]);
                }
                if (ext_end as int) - (ext_start as int) < tail.len() {
                    assert(tail[ext_end - ext_start] == upper@[ext_end as int]);
                }
                lemma_dot_prefix_split(tail, ext_end - ext_start);
                assert(dot_ext(upper@) =~= upper@.subrange(ext_start as int, ext_end as int));
            } else {
                assert(dot_ext(upper@) =~= Seq::<u8>::empty());
                assert(dot_ext(upper@).len() == 0);
            }
        }
        if base_len > 8 || ext_end - ext_start > 3 {
            return Err(FsError::NameTooLong);
        }
        // The base may not carry bytes 8.3 forbids.
        let mut i: usize = 0;
        while i < base_len
            invariant
                name@.len() > 0,
                upper@ == upper_seq(name@),
                !upper@.contains(0x20),
                i <= base_len,
                base_len <= upper@.len(),
                dot_prefix(upper@) == upper@.subrange(0, base_len as int),
                base_len <= 8,
            decreases base_len - i,
        {
            if forbidden_byte(upper[i]) {
                proof {
                    assert(dot_prefix(upper@)[i as int] == upper@[i as int]);
                }
                return Err(FsError::InvalidCharacter);
            }
            i = i + 1;
        }
        // Pad both parts with spaces.
        let mut padded: Vec<u8> = Vec::new();
        let mut i: usize = 0;
        while i < 8
            invariant
                i <= 8,
                base_len <= 8,
                base_len <= upper@.len(),
                padded@.len() == i,
                forall|j: int| 0 <= j < i && j < base_len ==> padded@[j] == upper@[j],
                forall|j: int| base_len <= j < i ==> padded@[j] == 0x20,
            decreases 8 - i,
        {
            if i < base_len {
                padded.push(upper[i]);
            } else {
                padded.push(0x20);
            }
            i = i + 1;
        }
        let name_arr: [u8; 8] = [
            padded[0],
            padded[1],
            padded[2],
            padded[3],
            padded[4],
            padded[5],
            padded[6],
            padded[7],
        ];
        let mut ext_padded: Vec<u8> = Vec::new();
        let mut i: usize = 0;
        while i < 3
            invariant
                i <= 3,
                ext_start <= ext_end <= upper@.len(),
                ext_end - ext_start <= 3,
                ext_padded@.len() == i,
                forall|j: int|
                    0 <= j < i && j < ext_end - ext_start ==> ext_padded@[j] == upper@[ext_start
                        + j],
                forall|j: int| ext_end - ext_start <= j < i ==> ext_padded@[j] == 0x20,
            decreases 3 - i,
        {
            if i < ext_end - ext_start {
                ext_padded.push(upper[ext_start + i]);
            } else {
                ext_padded.push(0x20);
            }
            i = i + 1;
        }
        let ext_arr: [u8; 3] = [ext_padded[0], ext_padded[1], ext_padded[2]];
        proof {
            assert(name_arr@ =~= pad_spaces(dot_prefix(upper_seq(name@)), 8));
            assert(ext_arr@ =~= pad_spaces(dot_ext(upper_seq(name@)), 3));
        }
        Ok(ShortFileName { name: name_arr, ext: ext_arr })
    }
}

/// Scanning to the first period, or the end, yields the dot prefix.
proof fn lemma_dot_prefix_split(s: Seq<u8>, k: int)
    requires
        0 <= k <= s.len(),
        forall|j: int| 0 <= j < k ==> s[j] != 0x2E,
        k < s.len() ==> s[k] == 0x2E,
    ensures
        dot_prefix(s) == s.subrange(0, k),
    decreases s.len(),
{
    if s.len() == 0 {
        assert(s.subrange(0, 0) =~= s);
    } else if s[0] == 0x2E {
        assert(k == 0);
        assert(dot_prefix(s) =~= s.subrange(0, 0));
    } else {
        assert(k >= 1);
        assert forall|j: int| 0 <= j < k - 1 implies s.drop_first()[j] != 0x2E by {
            assert(s.drop_first()[j] == s[j + 1]);
        }
        lemma_dot_prefix_split(s.drop_first(), k - 1);
        assert(dot_prefix(s) =~= s.subrange(0, k));
    }
}

/// The byte upper-cased, for the ASCII letters.
pub open spec fn spec_upper_byte(b: u8) -> u8 {
    if 0x61 <= b <= 0x7A {
        (b - 0x20) as u8
    } else {
        b
    }
}

/// A byte sequence upper-cased.
pub open spec fn upper_seq(s: Seq<u8>) -> Seq<u8> {
    s.map_values(|b: u8| spec_upper_byte(b))
}

/// The part of a component before its first period.
pub open spec fn dot_prefix(s: Seq<u8>) -> Seq<u8>
    decreases s.len(),
{
    if s.len() == 0 {
        s
    } else if s[0] == 0x2E {
        Seq::empty()
    } else {
        seq![s[0]].add(dot_prefix(s.drop_first()))
    }
}

/// A sequence space-padded to `n` bytes.
pub open spec fn pad_spaces(s: Seq<u8>, n: int) -> Seq<u8> {
    s.add(Seq::new((n - s.len()) as nat, |i: int| 0x20u8))
}

/// What follows a component's first period; empty when none exists.
pub open spec fn after_dot(s: Seq<u8>) -> Seq<u8>
    decreases s.len(),
{
    if s.len() == 0 {
        s
    } else if s[0] == 0x2E {
        s.drop_first()
    } else {
        after_dot(s.drop_first())
    }
}

/// The extension a component spells: between its first period and the
/// next one.
pub open spec fn dot_ext(s: Seq<u8>) -> Seq<u8> {
    dot_prefix(after_dot(s))
}

/// Whether 8.3 forbids the byte in a name.
pub open spec fn spec_forbidden_byte(b: u8) -> bool {
    b < 0x20 || b == 0x22 || b == 0x2A || b == 0x2B || b == 0x2C || b == 0x2F || b == 0x3A || b
        == 0x3B || b == 0x3C || b == 0x3D || b == 0x3E || b == 0x3F || b == 0x5B || b == 0x5C || b
        == 0x5D || b == 0x7C
}

/// Scanning to the first period, or the end, leaves the suffix past it.
proof fn lemma_after_dot_split(s: Seq<u8>, k: int)
    requires
        0 <= k <= s.len(),
        forall|j: int| 0 <= j < k ==> s[j] != 0x2E,
        k < s.len() ==> s[k] == 0x2E,
    ensures
        k < s.len() ==> after_dot(s) == s.subrange(k + 1, s.len() as int),
        k == s.len() ==> after_dot(s) == Seq::<u8>::empty(),
    decreases s.len(),
{
    if s.len() == 0 {
        assert(after_dot(s) =~= Seq::<u8>::empty());
    } else if s[0] == 0x2E {
        assert(k == 0);
        assert(after_dot(s) =~= s.subrange(1, s.len() as int));
    } else {
        assert(k >= 1);
        assert forall|j: int| 0 <= j < k - 1 implies s.drop_first()[j] != 0x2E by {
            assert(s.drop_first()[j] == s[j + 1]);
        }
        lemma_after_dot_split(s.drop_first(), k - 1);
        if k < s.len() {
            assert(s.drop_first()[k - 1] == s[k]);
            assert(s.drop_first().subrange(k, s.drop_first().len() as int) =~= s.subrange(
                k + 1,
                s.len() as int,
            ));
        }
    }
}

/// The byte upper-cased, for the ASCII letters.
#[verifier::when_used_as_spec(spec_upper_byte)]
fn upper_byte_exec(b: u8) -> (r: u8)
    ensures
        r == spec_upper_byte(b),
{
    if 0x61 <= b && b <= 0x7A {
        b - 0x20
    } else {
        b
    }
}

/// Whether 8.3 forbids the byte in a name.
#[verifier::when_used_as_spec(spec_forbidden_byte)]
fn forbidden_byte(b: u8) -> (r: bool)
    ensures
        r == spec_forbidden_byte(b),
{
    b < 0x20 || b == 0x22 || b == 0x2A || b == 0x2B || b == 0x2C || b == 0x2F || b == 0x3A || b
        == 0x3B || b == 0x3C || b == 0x3D || b == 0x3E || b == 0x3F || b == 0x5B || b == 0x5C || b
        == 0x5D || b == 0x7C
}

/// Whether the entry is a file or a directory.
#[derive(Clone, Copy, Debug, PartialEq, Eq, Structural)]
pub enum FileType {
    /// An ordinary file.
    File,
    /// A directory.
    Directory,
}

/// What a directory listing hands out for one entry.
pub struct Metadata {
    /// File or directory.
    pub entry_type: FileType,
    /// The displayable name: the trimmed base, a period, the trimmed
    /// extension when one exists.
    pub name: Vec<u8>,
    /// The file's length in bytes.
    pub len: usize,
    /// When the entry was created.
    pub created: Option<FsTime>,
    /// When the entry was last read.
    pub accessed: Option<FsTime>,
    /// When the entry was last changed.
    pub modified: Option<FsTime>,
}

/// Bytes per on-disk directory entry.
pub const DIR_ENTRY_LEN: usize = 0x20;

/// One parsed directory entry.
pub struct DirEntry {
    /// The 8.3 name.
    pub filename: ShortFileName,
    /// When the entry was last changed.
    pub modified_time: FsTime,
    /// When the entry was created.
    pub created_time: FsTime,
    /// When the entry was last read.
    pub accessed_time: FsTime,
    /// The first cluster of the entry's data.
    pub cluster: Cluster,
    /// The attribute bits.
    pub attributes: Attributes,
    /// The file's length in bytes.
    pub size: u32,
}

impl DirEntry {
    /// Parse a 32-byte on-disk entry in the standard 8.3 format.
    pub fn parse(data: &[u8]) -> (r: Result<DirEntry, FsError>)
        requires
            data@.len() >= 32,
        ensures
            r matches Ok(e) && {
                &&& e.filename.name@ == data@.subrange(0, 8)
                &&& e.filename.ext@ == data@.subrange(8, 11)
                &&& e.attributes == Attributes(
                    if data@[11] & 0xC0 == 0 {
                        data@[11]
                    } else {
                        0
                    },
                )
                &&& e.cluster == Cluster(u32_le(data@[26], data@[27], data@[20], data@[21]))
                &&& e.size == u32_le(data@[28], data@[29], data@[30], data@[31])
                &&& e.created_time == spec_fat_decode(
                    u32_le(data@[14], data@[15], data@[16], data@[17]),
                )
                &&& e.accessed_time == spec_fat_decode(u32_le(0, 0, data@[18], data@[19]))
                &&& e.modified_time == spec_fat_decode(
                    u32_le(data@[22], data@[23], data@[24], data@[25]),
                )
            },
    {
        let filename = ShortFileName::new(data);
        let created_time = parse_datetime(u32_from_le(data[14], data[15], data[16], data[17]));
        let accessed_time = parse_datetime(u32_from_le(0, 0, data[18], data[19]));
        let modified_time = parse_datetime(u32_from_le(data[22], data[23], data[24], data[25]));
        // Bits outside the attribute mask mean a malformed byte; keep
        // none of them then.
        let attr_byte = data[11];
        let attributes = if attr_byte & 0xC0 == 0 {
            Attributes(attr_byte)
        } else {
            Attributes(0)
        };
        let cluster = u32_from_le(data[26], data[27], data[20], data[21]);
        let size = u32_from_le(data[28], data[29], data[30], data[31]);
        Ok(
            DirEntry {
                filename,
                modified_time,
                created_time,
                accessed_time,
                cluster: Cluster(cluster),
                attributes,
                size,
            },
        )
    }

    /// Whether the entry is a long-file-name continuation.
    pub fn is_long_name(&self) -> (r: bool)
        ensures
            r == (self.attributes.0 & ATTR_LFN == ATTR_LFN),
    {
        self.attributes.contains(ATTR_LFN)
    }

    /// Whether the entry names something: neither the end-of-directory
    /// marker nor a deleted slot.
    pub fn is_valid(&self) -> (r: bool)
        ensures
            r == (!(self.filename.name@[0] == 0x00 && self.filename.ext@[0] == 0x00)
                && self.filename.name@[0] != 0xE5),
    {
        !self.filename.is_eod() && !self.filename.is_unused()
    }

    /// Whether the entry names a directory.
    pub fn is_directory(&self) -> (r: bool)
        ensures
            r == (self.attributes.0 & ATTR_DIRECTORY == ATTR_DIRECTORY),
    {
        self.attributes.contains(ATTR_DIRECTORY)
    }

    /// The displayable name: base and extension trimmed of padding,
    /// joined with a period when an extension exists; entries that name
    /// nothing, or long-name continuations, read as unknown.
    pub fn filename(&self) -> (r: Vec<u8>)
    {
        if self.is_valid() && !self.is_long_name() {
            let base = self.filename.basename();
            let ext = self.filename.extension();
            let mut out: Vec<u8> = Vec::new();
            let mut blen: usize = base.len();
            while blen > 0
                invariant
                    blen <= base@.len(),
                decreases blen,
            {
                if base[blen - 1] != 0x20 {
                    break ;
                }
                blen = blen - 1;
            }
            let mut i: usize = 0;
            while i < blen
                invariant
                    i <= blen,
                    blen <= base@.len(),
                decreases blen - i,
            {
                out.push(base[i]);
                i = i + 1;
            }
            if ext[0] != 0x20 {
                out.push(0x2E);
                let mut elen: usize = ext.len();
                while elen > 0
                    invariant
                        elen <= ext@.len(),
                    decreases elen,
                {
                    if ext[elen - 1] != 0x20 {
                        break ;
                    }
                    elen = elen - 1;
                }
                let mut i: usize = 0;
                while i < elen
                    invariant
                        i <= elen,
                        elen <= ext@.len(),
                    decreases elen - i,
                {
                    out.push(ext[i]);
                    i = i + 1;
                }
            }
            out
        } else {
            let mut out: Vec<u8> = Vec::new();
            out.push(0x75);
            out.push(0x6E);
            out.push(0x6B);
            out.push(0x6E);
            out.push(0x6F);
            out.push(0x77);
            out.push(0x6E);
            out
        }
    }

    /// The entry as directory-listing metadata.
    pub fn as_meta(&self) -> (r: Metadata)
        ensures
            r.entry_type == (if self.attributes.0 & ATTR_DIRECTORY == ATTR_DIRECTORY {
                FileType::Directory
            } else {
                FileType::File
            }),
            r.len == self.size,
            r.created == Some(self.created_time),
            r.accessed == Some(self.accessed_time),
            r.modified == Some(self.modified_time),
    {
        Metadata {
            entry_type: if self.is_directory() {
                FileType::Directory
            } else {
                FileType::File
            },
            name: self.filename(),
            len: self.size as usize,
            created: Some(self.created_time),
            accessed: Some(self.accessed_time),
            modified: Some(self.modified_time),
        }
    }
}

} // verus!
