//! The progress of a download.

use vstd::prelude::*;
use vstd::string::StringExecFns;

use crate::text::{append_decimal, parse_unsigned};

verus! {

use crate::text::{decimal, law_decimal_is_read_back, text_of, unsigned_value};

/// The number of bytes that a response announces in its `content-length`
/// header, if it has one that is a number.
pub fn content_length(header: Option<&str>) -> (r: Option<u64>)
    ensures
        match r {
            Some(n) => header matches Some(h) && unsigned_value(h@, u64::MAX as nat) == Some(
                n as nat,
            ),
            None => header matches Some(h) ==> unsigned_value(h@, u64::MAX as nat) is None,
        },
{
    match header {
        Some(h) => parse_unsigned(h, u64::MAX),
        None => None,
    }
}

/// Counts the bytes of a download and tells about each megabyte.
pub struct ProgressReader {
    pub bytes_read: u64,
    pub total_bytes: Option<u64>,
    /// The megabyte that was told about last; no megabyte at first.
    pub last_printed_mb: u64,
}

/// The whole megabytes in a number of bytes.
pub open spec fn megabytes(bytes: nat) -> nat {
    bytes / 1048576
}

/// What is told about a megabyte.
pub open spec fn progress_text(mb: nat, total_bytes: Option<u64>) -> Seq<char> {
    match total_bytes {
        Some(total) => "\rshuru: downloaded "@ + decimal(mb) + " / "@ + decimal(
            megabytes(total as nat),
        ) + " MB"@,
        None => "\rshuru: downloaded "@ + decimal(mb) + " MB"@,
    }
}

impl ProgressReader {
    /// A download of which nothing was read.
    pub fn new(total_bytes: Option<u64>) -> (r: Self)
        ensures
            r == (ProgressReader { bytes_read: 0, total_bytes, last_printed_mb: u64::MAX }),
    {
        ProgressReader { bytes_read: 0, total_bytes, last_printed_mb: u64::MAX }
    }

    /// Counts `n` more bytes. Where that makes another number of megabytes than
    /// the last one that was told about, the text tells about it.
    pub fn read(&mut self, n: u64) -> (r: Option<String>)
        requires
            old(self).bytes_read + n <= u64::MAX,
        ensures
            final(self).bytes_read == old(self).bytes_read + n,
            final(self).total_bytes == old(self).total_bytes,
            final(self).last_printed_mb == megabytes(final(self).bytes_read as nat),
            text_of(r) == (if final(self).last_printed_mb == old(self).last_printed_mb {
                None
            } else {
                Some(progress_text(final(self).last_printed_mb as nat, old(self).total_bytes))
            }),
    {
        self.bytes_read = self.bytes_read + n;
        let current_mb: u64 = self.bytes_read / 1048576;
        if current_mb == self.last_printed_mb {
            return None;
        }
        self.last_printed_mb = current_mb;
        let mut text = "\rshuru: downloaded ".to_string();
        append_decimal(&mut text, current_mb);
        match self.total_bytes {
            Some(total) => {
                text.append(" / ");
                append_decimal(&mut text, total / 1048576);
                text.append(" MB");
            },
            None => {
                text.append(" MB");
            },
        }
        Some(text)
    }
}

/// The first read is always told about: no number of bytes makes as many
/// megabytes as stand for "none yet".
pub proof fn law_first_read_is_told(n: u64)
    ensures
        megabytes(n as nat) != u64::MAX,
{
}

/// A download is told about exactly when its count of whole megabytes is another
/// than at the last read, and the text says how many there are, and of how many
/// where that is known. Every byte is counted.
pub proof fn law_what_is_told_of_a_download(
    p: &mut ProgressReader,
    n: u64,
    r: Option<String>,
    next: &mut ProgressReader,
    m: u64,
    q: Option<String>,
    mb: nat,
)
    requires
        old(p).bytes_read + n + m <= u64::MAX,
        call_ensures(ProgressReader::read, (p, n), r),
        call_ensures(ProgressReader::read, (next, m), q),
        *old(next) == *final(p),
        mb * 1048576 <= final(next).bytes_read < (mb + 1) * 1048576,
    ensures
        final(next).bytes_read == old(p).bytes_read + n + m,
        final(next).total_bytes == old(p).total_bytes,
        q is None <==> mb * 1048576 <= final(p).bytes_read,
        q matches Some(text) ==> match old(p).total_bytes {
            None => text@ == "\rshuru: downloaded "@ + decimal(mb) + " MB"@,
            Some(total) => text@ == "\rshuru: downloaded "@ + decimal(mb) + " / "@ + decimal(
                total as nat / 1048576,
            ) + " MB"@,
        },
{
    assert(megabytes(final(next).bytes_read as nat) == mb);
}

/// The first read is told about, however little it is.
pub proof fn law_new_download_is_told(
    total: Option<u64>,
    fresh: ProgressReader,
    p: &mut ProgressReader,
    n: u64,
    r: Option<String>,
    mb: nat,
)
    requires
        call_ensures(ProgressReader::new, (total,), fresh),
        *old(p) == fresh,
        call_ensures(ProgressReader::read, (p, n), r),
        mb * 1048576 <= n < (mb + 1) * 1048576,
    ensures
        call_requires(ProgressReader::read, (p, n)),
        r matches Some(text) && text@ == match total {
            None => "\rshuru: downloaded "@ + decimal(mb) + " MB"@,
            Some(all) => "\rshuru: downloaded "@ + decimal(mb) + " / "@ + decimal(
                all as nat / 1048576,
            ) + " MB"@,
        },
        final(p).bytes_read == n,
        final(p).total_bytes == total,
{
    assert(megabytes(final(p).bytes_read as nat) == mb);
}

/// The length of a response is the number in its header: it is read from its
/// numeral, and there is none without a header or where it is no number.
pub proof fn law_content_length_is_read(
    n: nat,
    header: Option<&str>,
    r: Option<u64>,
    i: int,
)
    requires
        call_ensures(content_length, (header,), r),
    ensures
        header is None ==> r is None,
        header matches Some(h) && h@ == decimal(n) ==> (r is Some <==> n <= u64::MAX) && (r matches
            Some(x) ==> x == n),
        header matches Some(h) && (h@.len() == 0 || 0 <= i < h@.len() && h@[i] != '+' && !('0'
            <= h@[i] <= '9')) ==> r is None,
{
    law_decimal_is_read_back(n);
    match header {
        Some(h) => {
            if 0 <= i < h@.len() && h@[i] != '+' && !('0' <= h@[i] <= '9') && h@[0] == '+' {
                assert(h@.drop_first()[i - 1] == h@[i]);
            }
        },
        None => {},
    }
}

/// The length of a response is what its header is as a number, and a header that is
/// none gives no length.
pub proof fn law_content_length_is_the_number(
    header: &str,
    n: Option<u64>,
    r: Option<u64>,
)
    requires
        call_ensures(parse_unsigned, (header, u64::MAX), n),
        call_ensures(content_length, (Some(header),), r),
    ensures
        r == n,
{
}

} // verus!
