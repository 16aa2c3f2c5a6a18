use vstd::prelude::*;
use vstd::string::StringSliceAdditionalSpecFns;

verus! {

/// Why a file name does not make a short (8.3) name.
#[derive(Clone, Copy, PartialEq, Eq, Structural, Debug)]
pub enum FilenameError {
    FilenameEmpty,
    NameTooLong,
    MisplacedPeriod,
    InvalidCharacter,
}

/// Filesystem errors.
#[derive(Clone, Copy, PartialEq, Eq, Structural, Debug)]
pub enum FsError {
    FileNameError(FilenameError),
    BadCluster,
    EndOfFile,
    NotInSector,
    FileNotFound,
    InvalidOperation,
    NotADirectory,
    NotAFile,
}

/// A timestamp of a directory entry, in UTC.
#[derive(Clone, Copy, PartialEq, Eq, Structural, Debug)]
pub struct FsTime {
    pub year: u32,
    pub month: u32,
    pub day: u32,
    pub hour: u32,
    pub min: u32,
    pub sec: u32,
}

pub open spec fn is_leap_year(y: int) -> bool {
    (y % 4 == 0 && y % 100 != 0) || y % 400 == 0
}

pub open spec fn days_in_month(y: int, m: int) -> int {
    if m == 2 {
        if is_leap_year(y) {
            29
        } else {
            28
        }
    } else if m == 4 || m == 6 || m == 9 || m == 11 {
        30
    } else {
        31
    }
}

/// Whether the fields name an instant of the proleptic Gregorian calendar
/// (no leap seconds).
pub open spec fn datetime_valid(y: int, mo: int, d: int, h: int, mi: int, s: int) -> bool {
    &&& 1 <= mo <= 12
    &&& 1 <= d <= days_in_month(y, mo)
    &&& 0 <= h < 24
    &&& 0 <= mi < 60
    &&& 0 <= s < 60
}

/// Relies on chrono's `TimeZone::with_ymd_and_hms` for `Utc`: it gives a
/// single instant exactly when `NaiveDate::from_ymd_opt` accepts the date
/// (month 1 to 12, day within the month, Gregorian leap years) and
/// `NaiveDate::and_hms_opt` accepts the time (hour below 24, minute and
/// second below 60); the years asked for lie well inside chrono's range.
#[verifier::external_body]
fn utc_datetime_exists(y: u32, mo: u32, d: u32, h: u32, mi: u32, s: u32) -> (r: bool)
    requires
        y <= 10000,
    ensures
        r == datetime_valid(y as int, mo as int, d as int, h as int, mi as int, s as int),
{
    chrono::TimeZone::with_ymd_and_hms(&chrono::Utc, y as i32, mo, d, h, mi, s).single().is_some()
}

/// The instant that the FAT date-time word `time` encodes: seconds halved
/// in bits 0-4, minutes in 5-10, hours in 11-15, day in 16-20, month in
/// 21-24, years since 1980 in 25-31.
pub open spec fn decode_datetime(time: u32) -> FsTime {
    FsTime {
        year: (((time >> 25u32) & 0x7Fu32) + 1980) as u32,
        month: (time >> 21u32) & 0x0Fu32,
        day: (time >> 16u32) & 0x1Fu32,
        hour: (time >> 11u32) & 0x1Fu32,
        min: (time >> 5u32) & 0x3Fu32,
        sec: ((time & 0x1Fu32) * 2) as u32,
    }
}

/// The Unix epoch, which stands in for an invalid timestamp.
pub open spec fn epoch() -> FsTime {
    FsTime { year: 1970, month: 1, day: 1, hour: 0, min: 0, sec: 0 }
}

pub open spec fn fs_time_valid(t: FsTime) -> bool {
    datetime_valid(t.year as int, t.month as int, t.day as int, t.hour as int, t.min as int, t.sec as int)
}

/// Decodes a FAT date-time word; an invalid date or time reads as the Unix
/// epoch.
pub fn parse_datetime(time: u32) -> (r: FsTime)
    ensures
        r == (if fs_time_valid(decode_datetime(time)) {
            decode_datetime(time)
        } else {
            epoch()
        }),
{
    proof {
        assert((time >> 25u32) & 0x7Fu32 <= 0x7F) by (bit_vector);
        assert(time & 0x1Fu32 <= 0x1F) by (bit_vector);
    }
    let sec = (time & 0x1F) * 2;
    let min = (time >> 5) & 0x3F;
    let hour = (time >> 11) & 0x1F;
    let day = (time >> 16) & 0x1F;
    let month = (time >> 21) & 0x0F;
    let year = ((time >> 25) & 0x7F) + 1980;
    if utc_datetime_exists(year, month, day, hour, min, sec) {
        FsTime { year, month, day, hour, min, sec }
    } else {
        FsTime { year: 1970, month: 1, day: 1, hour: 0, min: 0, sec: 0 }
    }
}

/// The attribute byte of a directory entry.
#[derive(Clone, Copy, PartialEq, Eq, Structural, Debug)]
pub struct Attributes(pub u8);

pub const ATTR_READ_ONLY: u8 = 0x01;
pub const ATTR_HIDDEN: u8 = 0x02;
pub const ATTR_SYSTEM: u8 = 0x04;
pub const ATTR_VOLUME_ID: u8 = 0x08;
pub const ATTR_DIRECTORY: u8 = 0x10;
pub const ATTR_ARCHIVE: u8 = 0x20;
/// Long-file-name entries set the four low bits.
pub const ATTR_LFN: u8 = 0x0f;
/// Every bit that some attribute uses.
pub const ATTR_ALL: u8 = 0x3f;

impl Attributes {
    /// The attributes of `bits`, unknown bits dropped.
    pub fn from_bits_truncate(bits: u8) -> (r: Attributes)
        ensures
            r.0 == bits & ATTR_ALL,
    {
        Attributes(bits & ATTR_ALL)
    }

    /// Whether every bit of `other` is set here.
    pub fn contains(&self, other: Attributes) -> (r: bool)
        ensures
            r == (self.0 & other.0 == other.0),
    {
        self.0 & other.0 == other.0
    }
}

/// A cluster number.
#[derive(Clone, Copy, PartialEq, Eq, Structural, Debug)]
pub struct Cluster(pub u32);

/// Cluster number standing for the root directory, which has none on FAT16.
pub const ROOT_DIR_CLUSTER: u32 = 0xFFFF_FFFC;

/// Cluster number marking an invalid value.
pub const INVALID_CLUSTER: u32 = 0xFFFF_FFF6;
/// Cluster number marking a bad cluster.
pub const BAD_CLUSTER: u32 = 0xFFFF_FFF7;
/// Cluster number of an empty file.
pub const EMPTY_CLUSTER: u32 = 0;
/// Cluster number marking the last cluster of a file.
pub const END_OF_FILE_CLUSTER: u32 = 0xFFFF_FFFF;

/// Whether `c` may stand in a short name.
pub open spec fn valid_name_byte(c: u8) -> bool {
    !(c <= 0x20 || c == 0x22 || c == 0x2A || c == 0x2B || c == 0x2C || c == 0x2F || c == 0x3A || c == 0x3B
        || c == 0x3C || c == 0x3D || c == 0x3E || c == 0x3F || c == 0x5B || c == 0x5C || c == 0x5D || c
        == 0x7C)
}

fn is_valid_name_byte(c: u8) -> (r: bool)
    ensures
        r == valid_name_byte(c),
{
    !(c <= 0x20 || c == 0x22 || c == 0x2A || c == 0x2B || c == 0x2C || c == 0x2F || c == 0x3A || c == 0x3B
        || c == 0x3C || c == 0x3D || c == 0x3E || c == 0x3F || c == 0x5B || c == 0x5C || c == 0x5D || c
        == 0x7C)
}

/// Number of periods in `b`.
pub open spec fn count_dots(b: Seq<u8>) -> nat
    decreases b.len(),
{
    if b.len() == 0 {
        0
    } else {
        count_dots(b.drop_last()) + if b.last() == 0x2E {
            1nat
        } else {
            0nat
        }
    }
}

/// Index of the first period in `b`, or its length.
pub open spec fn first_dot(b: Seq<u8>) -> int
    decreases b.len(),
{
    if b.len() == 0 {
        0
    } else if b[0] == 0x2E {
        0
    } else {
        1 + first_dot(b.drop_first())
    }
}

/// `s` padded with spaces to `n` bytes.
pub open spec fn padded(s: Seq<u8>, n: nat) -> Seq<u8> {
    s + Seq::new((n - s.len()) as nat, |_i: int| 0x20u8)
}

/// What parsing a name into a short name gives: the base name before the
/// one period and the extension after it (or all of it, without a
/// period), each padded with spaces.
pub open spec fn parse_short_name(b: Seq<u8>) -> Result<(Seq<u8>, Seq<u8>), FilenameError> {
    let base = if count_dots(b) == 0 {
        b
    } else {
        b.take(first_dot(b))
    };
    let ext = if count_dots(b) == 0 {
        Seq::<u8>::empty()
    } else {
        b.skip(first_dot(b) + 1)
    };
    if b.len() == 0 {
        Err(FilenameError::FilenameEmpty)
    } else if count_dots(b) > 1 {
        Err(FilenameError::MisplacedPeriod)
    } else if base.len() > 8 || ext.len() > 3 {
        Err(FilenameError::NameTooLong)
    } else if exists|i: int| 0 <= i < b.len() && i != first_dot(b) && !valid_name_byte(#[trigger] b[i]) {
        Err(FilenameError::InvalidCharacter)
    } else {
        Ok((padded(base, 8), padded(ext, 3)))
    }
}

/// An 8.3 name: base and extension, space padded.
#[derive(Clone, Copy, PartialEq, Eq, Debug)]
pub struct ShortFileName {
    pub name: [u8; 8],
    pub ext: [u8; 3],
}

proof fn lemma_count_dots_step(b: Seq<u8>, i: int)
    requires
        0 <= i < b.len(),
    ensures
        count_dots(b.take(i + 1)) == count_dots(b.take(i)) + if b[i] == 0x2E {
            1nat
        } else {
            0nat
        },
{
    assert(b.take(i + 1).drop_last() =~= b.take(i));
}

proof fn lemma_first_dot(b: Seq<u8>, i: int)
    requires
        0 <= i <= b.len(),
        forall|j: int| 0 <= j < i ==> b[j] != 0x2E,
        i < b.len() ==> b[i] == 0x2E,
    ensures
        first_dot(b) == i,
    decreases b.len(),
{
    if b.len() > 0 && i > 0 {
        lemma_first_dot(b.drop_first(), i - 1);
    }
}

proof fn lemma_no_dots(b: Seq<u8>, i: int)
    requires
        0 <= i <= b.len(),
        forall|j: int| 0 <= j < i ==> b[j] != 0x2E,
    ensures
        count_dots(b.take(i)) == 0,
    decreases i,
{
    if i > 0 {
        lemma_count_dots_step(b, i - 1);
        lemma_no_dots(b, i - 1);
    }
}

impl ShortFileName {
    /// The name in the first eleven bytes of `buf`.
    pub fn new(buf: &[u8]) -> (r: ShortFileName)
        requires
            buf@.len() >= 11,
        ensures
            r.name@ == buf@.subrange(0, 8),
            r.ext@ == buf@.subrange(8, 11),
    {
        let r = ShortFileName {
            name: [buf[0], buf[1], buf[2], buf[3], buf[4], buf[5], buf[6], buf[7]],
            ext: [buf[8], buf[9], buf[10]],
        };
        assert(r.name@ =~= buf@.subrange(0, 8));
        assert(r.ext@ =~= buf@.subrange(8, 11));
        r
    }

    /// The base name's bytes.
    pub fn basename(&self) -> (r: &[u8])
        ensures
            r@ == self.name@,
    {
        self.name.as_slice()
    }

    /// The extension's bytes.
    pub fn extension(&self) -> (r: &[u8])
        ensures
            r@ == self.ext@,
    {
        self.ext.as_slice()
    }

    /// The end-of-directory marker: an entry that starts with zero bytes.
    pub fn is_eod(&self) -> (r: bool)
        ensures
            r == (self.name@[0] == 0 && self.ext@[0] == 0),
    {
        self.name[0] == 0x00 && self.ext[0] == 0x00
    }

    /// A deleted entry.
    pub fn is_unused(&self) -> (r: bool)
        ensures
            r == (self.name@[0] == 0xE5),
    {
        self.name[0] == 0xE5
    }

    /// Whether the two names are the same.
    pub fn matches(&self, sfn: &ShortFileName) -> (r: bool)
        ensures
            r == (self.name@ == sfn.name@ && self.ext@ == sfn.ext@),
    {
        let mut i: usize = 0;
        while i < 8
            invariant
                i <= 8,
                forall|j: int| 0 <= j < i ==> self.name@[j] == sfn.name@[j],
            decreases 8 - i,
        {
            if self.name[i] != sfn.name[i] {
                return false;
            }
            i = i + 1;
        }
        let mut k: usize = 0;
        while k < 3
            invariant
                k <= 3,
                forall|j: int| 0 <= j < k ==> self.ext@[j] == sfn.ext@[j],
                self.name@ == sfn.name@,
            decreases 3 - k,
        {
            if self.ext[k] != sfn.ext[k] {
                return false;
            }
            k = k + 1;
        }
        assert(self.name@ =~= sfn.name@);
        assert(self.ext@ =~= sfn.ext@);
        true
    }

    /// Parses `name` as an 8.3 name: at most one period, which starts the
    /// extension; a base of at most eight bytes and an extension of at most
    /// three, padded with spaces; none of the bytes that short names forbid.
    /// The errors are checked in that order.
    pub fn parse(name: &str) -> (r: Result<ShortFileName, FsError>)
        ensures
            match parse_short_name(name.spec_bytes()) {
                Ok((n, e)) => r matches Ok(s) && s.name@ == n && s.ext@ == e,
                Err(err) => r == Err::<ShortFileName, FsError>(FsError::FileNameError(err)),
            },
    {
        let b = name.as_bytes();
        let ghost bs = b@;
        if b.len() == 0 {
            return Err(FsError::FileNameError(FilenameError::FilenameEmpty));
        }
        let mut dots: usize = 0;
        let mut dot_at: usize = b.len();
        let mut i: usize = 0;
        while i < b.len()
            invariant
                i <= bs.len(),
                b@ == bs,
                dots as nat == count_dots(bs.take(i as int)),
                dots == 0 ==> dot_at == bs.len() && forall|j: int| 0 <= j < i ==> bs[j] != 0x2E,
                dots > 0 ==> dot_at < i && bs[dot_at as int] == 0x2E && forall|j: int|
                    0 <= j < dot_at ==> bs[j] != 0x2E,
                dots <= i,
            decreases bs.len() - i,
        {
            proof {
                lemma_count_dots_step(bs, i as int);
            }
            if b[i] == 0x2E {
                if dots == 0 {
                    dot_at = i;
                }
                dots = dots + 1;
            }
            i = i + 1;
        }
        proof {
            assert(bs.take(bs.len() as int) =~= bs);
            if dots == 0 {
                lemma_first_dot(bs, bs.len() as int);
            } else {
                lemma_first_dot(bs, dot_at as int);
            }
        }
        if dots > 1 {
            return Err(FsError::FileNameError(FilenameError::MisplacedPeriod));
        }
        let base_len: usize = dot_at;
        let ext_len: usize = if dots == 0 {
            0
        } else {
            b.len() - dot_at - 1
        };
        proof {
            let base = if count_dots(bs) == 0 { bs } else { bs.take(first_dot(bs)) };
            let ext = if count_dots(bs) == 0 { Seq::<u8>::empty() } else { bs.skip(first_dot(bs) + 1) };
            assert(base.len() == base_len);
            assert(ext.len() == ext_len);
            assert(dots == 0 ==> first_dot(bs) == bs.len());
        }
        if base_len > 8 || ext_len > 3 {
            return Err(FsError::FileNameError(FilenameError::NameTooLong));
        }
        let mut k: usize = 0;
        while k < b.len()
            invariant
                k <= bs.len(),
                b@ == bs,
                forall|j: int| 0 <= j < k && j != dot_at ==> valid_name_byte(#[trigger] bs[j]),
                bs == name.spec_bytes(),
                dot_at == first_dot(bs),
                bs.len() > 0,
                dots <= 1,
                dots as nat == count_dots(bs),
                base_len <= 8 && ext_len <= 3,
                base_len == dot_at,
                dots == 0 ==> ext_len == 0 && dot_at == bs.len(),
                dots == 1 ==> ext_len == bs.len() - dot_at - 1 && dot_at < bs.len(),
            decreases bs.len() - k,
        {
            if k != dot_at && !is_valid_name_byte(b[k]) {
                proof {
                    assert(!valid_name_byte(bs[k as int]));
                    assert(exists|i: int| 0 <= i < bs.len() && i != first_dot(bs) && !valid_name_byte(#[trigger] bs[i]));
                    let base = if count_dots(bs) == 0 { bs } else { bs.take(first_dot(bs)) };
                    let ext = if count_dots(bs) == 0 { Seq::<u8>::empty() } else { bs.skip(first_dot(bs) + 1) };
                    assert(base.len() == base_len);
                    assert(ext.len() == ext_len);
                    assert(parse_short_name(bs) == Err::<(Seq<u8>, Seq<u8>), FilenameError>(FilenameError::InvalidCharacter));
                }
                return Err(FsError::FileNameError(FilenameError::InvalidCharacter));
            }
            k = k + 1;
        }
        let mut name_bytes: [u8; 8] = [0x20; 8];
        let mut ext_bytes: [u8; 3] = [0x20; 3];
        let mut j: usize = 0;
        while j < base_len
            invariant
                j <= base_len <= 8,
                base_len <= bs.len(),
                b@ == bs,
                forall|j: int| 0 <= j < bs.len() && j != dot_at ==> valid_name_byte(#[trigger] bs[j]),
                forall|q: int| 0 <= q < j ==> name_bytes@[q] == bs[q],
                forall|q: int| j <= q < 8 ==> name_bytes@[q] == 0x20,
                bs == name.spec_bytes(),
                dot_at == first_dot(bs),
                bs.len() > 0,
                dots <= 1,
                dots as nat == count_dots(bs),
                base_len <= 8 && ext_len <= 3,
                base_len == dot_at,
                dots == 0 ==> ext_len == 0 && dot_at == bs.len(),
                dots == 1 ==> ext_len == bs.len() - dot_at - 1 && dot_at < bs.len(),
            decreases base_len - j,
        {
            name_bytes.set(j, b[j]);
            j = j + 1;
        }
        let ext_start: usize = if dots == 0 {
            b.len()
        } else {
            dot_at + 1
        };
        let mut e: usize = 0;
        while e < ext_len
            invariant
                ext_start + ext_len == bs.len(),
                dots == 1 ==> ext_start == dot_at + 1,
                e <= ext_len <= 3,
                dots == 0 ==> ext_len == 0,
                dots == 1 ==> ext_len == bs.len() - dot_at - 1 && dot_at < bs.len(),
                dots <= 1,
                b@ == bs,
                forall|q: int| 0 <= q < e ==> ext_bytes@[q] == bs[dot_at + 1 + q],
                forall|q: int| e <= q < 3 ==> ext_bytes@[q] == 0x20,
                forall|q: int| 0 <= q < 8 ==> name_bytes@[q] == if q < base_len { bs[q] } else { 0x20u8 },
                forall|j: int| 0 <= j < bs.len() && j != dot_at ==> valid_name_byte(#[trigger] bs[j]),
                bs == name.spec_bytes(),
                dot_at == first_dot(bs),
                bs.len() > 0,
                dots <= 1,
                dots as nat == count_dots(bs),
                base_len <= 8 && ext_len <= 3,
                base_len == dot_at,
                dots == 0 ==> ext_len == 0 && dot_at == bs.len(),
                dots == 1 ==> ext_len == bs.len() - dot_at - 1 && dot_at < bs.len(),
            decreases ext_len - e,
        {
            ext_bytes.set(e, b[ext_start + e]);
            e = e + 1;
        }
        let r = ShortFileName { name: name_bytes, ext: ext_bytes };
        proof {
            let base = if dots == 0 { bs } else { bs.take(dot_at as int) };
            let ext = if dots == 0 { Seq::<u8>::empty() } else { bs.skip(dot_at + 1) };
            assert(r.name@ =~= padded(base, 8));
            assert(r.ext@ =~= padded(ext, 3));
        }
        Ok(r)
    }
}

/// The little-endian word in bytes `a` (lowest) to `d`.
pub open spec fn le_u32(a: u8, b: u8, c: u8, d: u8) -> u32 {
    (a as int + 0x100 * b as int + 0x1_0000 * c as int + 0x100_0000 * d as int) as u32
}

fn read_le_u32(a: u8, b: u8, c: u8, d: u8) -> (r: u32)
    ensures
        r == le_u32(a, b, c, d),
{
    a as u32 + (b as u32) * 0x100 + (c as u32) * 0x1_0000 + (d as u32) * 0x100_0000
}

/// Length in bytes of a directory entry.
pub const DIR_ENTRY_LEN: usize = 0x20;

/// A directory entry in the standard 8.3 form.
#[derive(Clone, Copy, PartialEq, Eq, Debug)]
pub struct DirEntry {
    pub filename: ShortFileName,
    pub moditified_time: FsTime,
    pub created_time: FsTime,
    pub accessed_time: FsTime,
    pub cluster: Cluster,
    pub attributes: Attributes,
    pub size: u32,
}

/// The timestamp of a FAT date-time word, or the epoch where invalid.
pub open spec fn datetime_of(time: u32) -> FsTime {
    if fs_time_valid(decode_datetime(time)) {
        decode_datetime(time)
    } else {
        epoch()
    }
}

/// Whether `e` is the entry that the 32 bytes of `d` from `off` encode: name
/// in bytes 0-10, attributes in 11, creation time in 14-17, access date in
/// 18-19, high cluster half in 20-21, modification time in 22-25, low
/// cluster half in 26-27, size in 28-31.
pub open spec fn parsed_from(e: DirEntry, d: Seq<u8>, off: int) -> bool {
    &&& e.filename.name@ == d.subrange(off, off + 8)
    &&& e.filename.ext@ == d.subrange(off + 8, off + 11)
    &&& e.attributes.0 == d[off + 11] & ATTR_ALL
    &&& e.created_time == datetime_of(le_u32(d[off + 14], d[off + 15], d[off + 16], d[off + 17]))
    &&& e.accessed_time == datetime_of(le_u32(0, 0, d[off + 18], d[off + 19]))
    &&& e.moditified_time == datetime_of(le_u32(d[off + 22], d[off + 23], d[off + 24], d[off + 25]))
    &&& e.cluster.0 == le_u32(d[off + 26], d[off + 27], d[off + 20], d[off + 21])
    &&& e.size == le_u32(d[off + 28], d[off + 29], d[off + 30], d[off + 31])
}

/// Whether the bytes are all ASCII.
pub open spec fn all_ascii(b: Seq<u8>) -> bool {
    forall|i: int| 0 <= i < b.len() ==> b[i] < 0x80
}

/// ASCII bytes as characters.
pub open spec fn ascii_text(b: Seq<u8>) -> Seq<char> {
    b.map_values(|c: u8| c as char)
}

/// The text that `String::from_utf8_lossy` makes of bytes `b`.
pub uninterp spec fn lossy_text(b: Seq<u8>) -> Seq<char>;

/// Relies on `String::from_utf8_lossy`: its result depends on the bytes
/// alone; ASCII bytes are valid UTF-8, so they come back unchanged, one
/// character per byte.
#[verifier::external_body]
fn text_of(b: &[u8]) -> (r: String)
    ensures
        r@ == lossy_text(b@),
        all_ascii(b@) ==> r@ == ascii_text(b@),
{
    String::from_utf8_lossy(b).into_owned()
}

/// ASCII white space.
pub open spec fn is_space(c: u8) -> bool {
    c == 0x20 || (0x09 <= c && c <= 0x0D)
}

/// `s` without its trailing white space.
pub open spec fn trim_end(s: Seq<u8>) -> Seq<u8>
    decreases s.len(),
{
    if s.len() > 0 && is_space(s.last()) {
        trim_end(s.drop_last())
    } else {
        s
    }
}

/// The bytes of a short name as shown: the base name, then a period and the
/// extension where the extension does not start with a space, each without
/// trailing white space.
pub open spec fn display_name(name: Seq<u8>, ext: Seq<u8>) -> Seq<u8> {
    if ext[0] == 0x20 {
        trim_end(name)
    } else {
        trim_end(name) + seq![0x2Eu8] + trim_end(ext)
    }
}

fn trimmed_len(s: &[u8]) -> (r: usize)
    ensures
        r <= s@.len(),
        s@.subrange(0, r as int) == trim_end(s@),
{
    let mut n: usize = s.len();
    proof {
        assert(s@.subrange(0, n as int) =~= s@);
    }
    while n > 0 && (s[n - 1] == 0x20 || (0x09 <= s[n - 1] && s[n - 1] <= 0x0D))
        invariant
            n <= s@.len(),
            trim_end(s@.subrange(0, n as int)) == trim_end(s@),
        decreases n,
    {
        proof {
            assert(s@.subrange(0, n as int).drop_last() =~= s@.subrange(0, n - 1));
        }
        n = n - 1;
    }
    n
}

impl ShortFileName {
    /// The name as shown (see `display_name`).
    pub fn display_bytes(&self) -> (r: Vec<u8>)
        ensures
            r@ == display_name(self.name@, self.ext@),
    {
        let mut out: Vec<u8> = Vec::new();
        let n = trimmed_len(self.name.as_slice());
        let mut i: usize = 0;
        while i < n
            invariant
                n <= 8,
                i <= n,
                out@ == self.name@.subrange(0, i as int),
            decreases n - i,
        {
            out.push(self.name[i]);
            proof {
                assert(out@ =~= self.name@.subrange(0, i + 1));
            }
            i = i + 1;
        }
        if self.ext[0] == 0x20 {
            return out;
        }
        out.push(0x2E);
        let ghost base = out@;
        let m = trimmed_len(self.ext.as_slice());
        let mut k: usize = 0;
        while k < m
            invariant
                m <= 3,
                k <= m,
                out@ == base + self.ext@.subrange(0, k as int),
            decreases m - k,
        {
            out.push(self.ext[k]);
            proof {
                assert(out@ =~= base + self.ext@.subrange(0, k + 1));
            }
            k = k + 1;
        }
        proof {
            assert(out@ =~= trim_end(self.name@) + seq![0x2Eu8] + trim_end(self.ext@));
        }
        out
    }
}

/// Kinds of directory entries.
#[derive(Clone, Copy, PartialEq, Eq, Structural, Debug)]
pub enum FileType {
    File,
    Directory,
}

/// What a directory listing shows of an entry.
#[derive(Clone, PartialEq, Eq, Debug)]
pub struct Metadata {
    pub entry_type: FileType,
    pub name: String,
    pub len: usize,
    pub created: Option<FsTime>,
    pub accessed: Option<FsTime>,
    pub modified: Option<FsTime>,
}

impl DirEntry {
    /// In use (first byte neither 0 nor 0xE5) and not part of a long name.
    pub open spec fn listed(&self) -> bool {
        self.filename.name@[0] != 0 && self.filename.name@[0] != 0xE5 && self.attributes.0 & ATTR_LFN != ATTR_LFN
    }

    /// The name a listing shows: for a listed entry, the text of its
    /// display bytes (see `display_name`); "unknown" otherwise.
    pub open spec fn shown_name(&self) -> Seq<char> {
        if self.listed() {
            lossy_text(display_name(self.filename.name@, self.filename.ext@))
        } else {
            "unknown"@
        }
    }

    /// Parses the 32-byte entry at `off` in `data`.
    pub fn parse_at(data: &[u8], off: usize) -> (r: DirEntry)
        requires
            off + DIR_ENTRY_LEN <= data@.len(),
        ensures
            parsed_from(r, data@, off as int),
    {
        let name = [
            data[off],
            data[off + 1],
            data[off + 2],
            data[off + 3],
            data[off + 4],
            data[off + 5],
            data[off + 6],
            data[off + 7],
        ];
        let ext = [data[off + 8], data[off + 9], data[off + 10]];
        let filename = ShortFileName { name, ext };
        proof {
            assert(filename.name@ =~= data@.subrange(off as int, off + 8));
            assert(filename.ext@ =~= data@.subrange(off + 8, off + 11));
        }
        let created_time = parse_datetime(
            read_le_u32(data[off + 14], data[off + 15], data[off + 16], data[off + 17]),
        );
        let accessed_time = parse_datetime(read_le_u32(0, 0, data[off + 18], data[off + 19]));
        let moditified_time = parse_datetime(
            read_le_u32(data[off + 22], data[off + 23], data[off + 24], data[off + 25]),
        );
        let cluster = Cluster(read_le_u32(data[off + 26], data[off + 27], data[off + 20], data[off + 21]));
        let attributes = Attributes::from_bits_truncate(data[off + 11]);
        let size = read_le_u32(data[off + 28], data[off + 29], data[off + 30], data[off + 31]);
        DirEntry { filename, moditified_time, created_time, accessed_time, cluster, attributes, size }
    }

    /// Parses a standard 8.3 directory entry from the first 32 bytes of
    /// `data`; every such block of bytes is an entry.
    pub fn parse(data: &[u8]) -> (r: Result<DirEntry, FsError>)
        requires
            data@.len() >= DIR_ENTRY_LEN,
        ensures
            r matches Ok(e) && parsed_from(e, data@, 0),
    {
        Ok(Self::parse_at(data, 0))
    }

    pub fn is_directory(&self) -> (r: bool)
        ensures
            r == (self.attributes.0 & ATTR_DIRECTORY == ATTR_DIRECTORY),
    {
        self.attributes.contains(Attributes(ATTR_DIRECTORY))
    }

    /// Neither free (first byte 0) nor deleted (first byte 0xE5).
    pub fn is_valid(&self) -> (r: bool)
        ensures
            r == (self.filename.name@[0] != 0 && self.filename.name@[0] != 0xE5),
    {
        self.filename.name[0] != 0x00 && self.filename.name[0] != 0xE5
    }

    pub fn is_eod(&self) -> (r: bool)
        ensures
            r == (self.filename.name@[0] == 0 && self.filename.ext@[0] == 0),
    {
        self.filename.is_eod()
    }

    pub fn is_long_name(&self) -> (r: bool)
        ensures
            r == (self.attributes.0 & ATTR_LFN == ATTR_LFN),
    {
        self.attributes.contains(Attributes(ATTR_LFN))
    }

    /// The name as shown (see `DirEntry::shown_name`).
    pub fn filename(&self) -> (r: String)
        ensures
            r@ == self.shown_name(),
            self.listed() && all_ascii(display_name(self.filename.name@, self.filename.ext@)) ==> r@
                == ascii_text(display_name(self.filename.name@, self.filename.ext@)),
    {
        if self.is_valid() && !self.is_long_name() {
            let b = self.filename.display_bytes();
            text_of(b.as_slice())
        } else {
            "unknown".to_owned()
        }
    }

    /// What a listing shows of this entry.
    pub fn as_meta(&self) -> (r: Metadata)
        ensures
            r.entry_type == (if self.attributes.0 & ATTR_DIRECTORY == ATTR_DIRECTORY {
                FileType::Directory
            } else {
                FileType::File
            }),
            r.name@ == self.shown_name(),
            r.len == self.size as usize,
            r.created == Some(self.created_time),
            r.accessed == Some(self.accessed_time),
            r.modified == Some(self.moditified_time),
    {
        Metadata {
            entry_type: if self.is_directory() {
                FileType::Directory
            } else {
                FileType::File
            },
            name: self.filename(),
            len: self.size as usize,
            created: Some(self.created_time),
            accessed: Some(self.accessed_time),
            modified: Some(self.moditified_time),
        }
    }
}

/// Bytes in a sector.
pub const SECTOR_SIZE: usize = 512;

/// The layout of a FAT16 volume, from its boot sector.
#[derive(Clone, Copy, PartialEq, Eq, Structural, Debug)]
pub struct Fat16Impl {
    pub sectors_per_cluster: u8,
    pub fat_start: usize,
    pub first_root_dir_sector: usize,
    pub first_data_sector: usize,
}

pub open spec fn le_u16(a: u8, b: u8) -> u16 {
    (a as int + 0x100 * b as int) as u16
}

impl Fat16Impl {
    /// The layout that the BIOS parameter block in `boot` describes: the
    /// FAT starts after the reserved sectors, the root directory after the
    /// FATs, and the data area after the root directory's sectors.
    pub fn new(boot: &[u8]) -> (r: Fat16Impl)
        requires
            boot@.len() >= 24,
        ensures
            ({
                let reserved = le_u16(boot@[14], boot@[15]) as int;
                let fats = boot@[16] as int;
                let root_entries = le_u16(boot@[17], boot@[18]) as int;
                let per_fat = le_u16(boot@[22], boot@[23]) as int;
                &&& r.sectors_per_cluster == boot@[13]
                &&& r.fat_start == reserved
                &&& r.first_root_dir_sector == reserved + fats * per_fat
                &&& r.first_data_sector == r.first_root_dir_sector + (root_entries * 32 + 511) / 512
            }),
    {
        let reserved = boot[14] as usize + (boot[15] as usize) * 0x100;
        let fats = boot[16] as usize;
        let root_entries = boot[17] as usize + (boot[18] as usize) * 0x100;
        let per_fat = boot[22] as usize + (boot[23] as usize) * 0x100;
        proof {
            assert(fats * per_fat <= 255 * 65535) by (nonlinear_arith)
                requires
                    fats <= 255,
                    per_fat <= 65535,
            ;
        }
        let root_dir_size = (root_entries * DIR_ENTRY_LEN + SECTOR_SIZE - 1) / SECTOR_SIZE;
        let first_root_dir_sector = reserved + fats * per_fat;
        Fat16Impl {
            sectors_per_cluster: boot[13],
            fat_start: reserved,
            first_root_dir_sector,
            first_data_sector: first_root_dir_sector + root_dir_size,
        }
    }

    pub open spec fn wf(&self) -> bool {
        &&& self.fat_start <= 65535
        &&& self.first_root_dir_sector <= 65535 + 255 * 65535
        &&& self.first_data_sector <= 65535 + 255 * 65535 + 4096
    }

    /// The first sector of `cluster`; the root directory has its own
    /// region.
    pub fn cluster_to_sector(&self, cluster: &Cluster) -> (r: u64)
        requires
            self.wf(),
            cluster.0 == ROOT_DIR_CLUSTER || cluster.0 >= 2,
        ensures
            cluster.0 == ROOT_DIR_CLUSTER ==> r == self.first_root_dir_sector,
            cluster.0 != ROOT_DIR_CLUSTER ==> r == (cluster.0 - 2) * self.sectors_per_cluster
                + self.first_data_sector,
    {
        if cluster.0 == ROOT_DIR_CLUSTER {
            self.first_root_dir_sector as u64
        } else {
            let idx = (cluster.0 - 2) as u64;
            proof {
                assert(idx * (self.sectors_per_cluster as u64) <= 0xFFFF_FFFF * 255) by (nonlinear_arith)
                    requires
                        idx <= 0xFFFF_FFFF,
                        self.sectors_per_cluster <= 255,
                ;
            }
            idx * (self.sectors_per_cluster as u64) + self.first_data_sector as u64
        }
    }

    /// The sector of the FAT that holds the entry of `cluster`.
    pub fn fat_sector_of(&self, cluster: &Cluster) -> (r: usize)
        requires
            self.wf(),
            cluster.0 < 0x8000_0000,
        ensures
            r == self.fat_start + (cluster.0 * 2) / 512,
    {
        self.fat_start + ((cluster.0 * 2) as usize) / SECTOR_SIZE
    }

    /// The cluster after `cluster` in its chain, read from `block`, the FAT
    /// sector that holds its entry: a bad-cluster mark (0xFFF7) and the
    /// end-of-chain marks (0xFFF8 and above) are errors.
    pub fn next_cluster(&self, cluster: &Cluster, block: &[u8]) -> (r: Result<Cluster, FsError>)
        requires
            cluster.0 < 0x8000_0000,
            block@.len() >= SECTOR_SIZE,
        ensures
            ({
                let off = (cluster.0 * 2) % 512;
                let entry = le_u16(block@[off as int], block@[off + 1]);
                &&& entry == 0xFFF7 ==> r == Err::<Cluster, FsError>(FsError::BadCluster)
                &&& entry >= 0xFFF8 ==> r == Err::<Cluster, FsError>(FsError::EndOfFile)
                &&& entry < 0xFFF7 ==> r == Ok::<Cluster, FsError>(Cluster(entry as u32))
            }),
    {
        let off = ((cluster.0 * 2) as usize) % SECTOR_SIZE;
        let entry: u16 = block[off] as u16 + (block[off + 1] as u16) * 0x100;
        if entry == 0xFFF7 {
            Err(FsError::BadCluster)
        } else if entry >= 0xFFF8 {
            Err(FsError::EndOfFile)
        } else {
            Ok(Cluster(entry as u32))
        }
    }

    /// Looks for `name` among the sixteen entries of the directory sector
    /// `block`: the first entry that ends the directory or has the name
    /// decides (`FileNotFound`, or that entry); with neither, the search
    /// goes on in the next sector (`NotInSector`).
    pub fn find_entry_in_sector(&self, name: &ShortFileName, block: &[u8]) -> (r: Result<DirEntry, FsError>)
        requires
            block@.len() >= SECTOR_SIZE,
        ensures
            ({
                let i = first_stop(block@, name.name@, name.ext@, 0);
                &&& i == 16 ==> r == Err::<DirEntry, FsError>(FsError::NotInSector)
                &&& i < 16 && entry_is_eod(block@, i) ==> r == Err::<DirEntry, FsError>(FsError::FileNotFound)
                &&& i < 16 && !entry_is_eod(block@, i) ==> (r matches Ok(e) && parsed_from(e, block@, 32 * i))
            }),
    {
        let mut i: usize = 0;
        while i < 16
            invariant
                i <= 16,
                block@.len() >= SECTOR_SIZE,
                first_stop(block@, name.name@, name.ext@, 0) == first_stop(block@, name.name@, name.ext@, i as int),
            decreases 16 - i,
        {
            let e = DirEntry::parse_at(block, i * DIR_ENTRY_LEN);
            proof {
                assert(e.filename.name@ == block@.subrange(32 * i, 32 * i + 8));
            }
            if e.is_eod() {
                return Err(FsError::FileNotFound);
            } else if e.filename.matches(name) {
                return Ok(e);
            }
            i = i + 1;
        }
        Err(FsError::NotInSector)
    }

    /// The listed entries of the directory sector `block` (in use and not
    /// part of a long name) up to the end-of-directory mark, in order, and
    /// whether the mark was met.
    pub fn list_sector(&self, block: &[u8]) -> (r: (Vec<DirEntry>, bool))
        requires
            block@.len() >= SECTOR_SIZE,
        ensures
            ({
                let e = first_eod(block@, 0);
                let idx = listed_before(block@, e);
                &&& r.1 == (e < 16)
                &&& r.0@.len() == idx.len()
                &&& forall|j: int| 0 <= j < idx.len() ==> parsed_from(#[trigger] r.0@[j], block@, 32 * idx[j])
            }),
    {
        let mut out: Vec<DirEntry> = Vec::new();
        let mut i: usize = 0;
        while i < 16
            invariant
                i <= 16,
                block@.len() >= SECTOR_SIZE,
                first_eod(block@, 0) == first_eod(block@, i as int),
                out@.len() == listed_before(block@, i as int).len(),
                forall|j: int|
                    0 <= j < out@.len() ==> parsed_from(#[trigger] out@[j], block@, 32 * listed_before(block@, i as int)[j]),
            decreases 16 - i,
        {
            let e = DirEntry::parse_at(block, i * DIR_ENTRY_LEN);
            if e.is_eod() {
                proof {
                    assert(entry_is_eod(block@, i as int));
                }
                return (out, true);
            }
            let ghost before = listed_before(block@, i as int);
            proof {
                assert(e.attributes.0 & ATTR_LFN == block@[32 * i + 11] & ATTR_ALL & ATTR_LFN);
            }
            if e.is_valid() && !e.is_long_name() {
                out.push(e);
                proof {
                    assert(listed_before(block@, i + 1) == before.push(i as int));
                }
            }
            i = i + 1;
        }
        (out, false)
    }
}

/// Index of the first entry from `i` on that ends the directory; 16 where
/// none does.
pub open spec fn first_eod(b: Seq<u8>, i: int) -> int
    decreases 16 - i,
{
    if i >= 16 {
        16
    } else if entry_is_eod(b, i) {
        i
    } else {
        first_eod(b, i + 1)
    }
}

/// Whether entry `i` of a directory sector is listed: in use (first byte
/// neither 0 nor 0xE5) and not part of a long name.
pub open spec fn entry_listed(b: Seq<u8>, i: int) -> bool {
    b[32 * i] != 0 && b[32 * i] != 0xE5 && b[32 * i + 11] & ATTR_ALL & ATTR_LFN != ATTR_LFN
}

/// The indices of the listed entries before entry `n`.
pub open spec fn listed_before(b: Seq<u8>, n: int) -> Seq<int>
    decreases n,
{
    if n <= 0 {
        Seq::<int>::empty()
    } else if entry_listed(b, n - 1) {
        listed_before(b, n - 1).push(n - 1)
    } else {
        listed_before(b, n - 1)
    }
}

/// Whether entry `i` of a directory sector marks the end of the directory.
pub open spec fn entry_is_eod(b: Seq<u8>, i: int) -> bool {
    b[32 * i] == 0 && b[32 * i + 8] == 0
}

/// Whether entry `i` of a directory sector has the given name.
pub open spec fn entry_has_name(b: Seq<u8>, i: int, name: Seq<u8>, ext: Seq<u8>) -> bool {
    b.subrange(32 * i, 32 * i + 8) == name && b.subrange(32 * i + 8, 32 * i + 11) == ext
}

/// Index of the first entry from `i` on that ends the directory or has the
/// name; 16 where none does.
pub open spec fn first_stop(b: Seq<u8>, name: Seq<u8>, ext: Seq<u8>, i: int) -> int
    decreases 16 - i,
{
    if i >= 16 {
        16
    } else if entry_is_eod(b, i) || entry_has_name(b, i, name, ext) {
        i
    } else {
        first_stop(b, name, ext, i + 1)
    }
}

} // verus!
