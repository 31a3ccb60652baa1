//! Windows: disks as listed by PowerShell's `Get-Disk`, one line per disk with
//! the fields `Number|FriendlyName|Size|BusType|IsBoot|IsSystem|OperationalStatus`.
use vstd::prelude::*;
use vstd::utf8::{decode_utf8, valid_utf8};
use crate::disk::{disk_views, Disk, DiskView};
use crate::error::{Error, IoFailure, Result};
use crate::text::{
    ascii_lower, chars_of, dec, eq_ignore_ascii_case, eq_ignore_ascii_case_chars, parse_bounded,
    parse_unsigned_chars, push_dec, push_str, split, split_chars, string_of, trim, trim_chars,
};

verus! {

/// What `String::from_utf8_lossy` makes of `bytes`.
pub uninterp spec fn utf8_lossy(bytes: Seq<u8>) -> Seq<char>;

/// `String::from_utf8_lossy`: the text of `bytes`, with each invalid UTF-8
/// sequence replaced by U+FFFD. Stated here: the result is a function of the
/// bytes, and valid UTF-8 decodes to its characters.
#[verifier::external_body]
pub(crate) fn text_of_bytes(bytes: &[u8]) -> (s: String)
    ensures
        s@ == utf8_lossy(bytes@),
        valid_utf8(bytes@) ==> s@ == decode_utf8(bytes@),
{
    String::from_utf8_lossy(bytes).into_owned()
}

/// Whether a `Get-Disk` boolean field is set: `True`, `true` or `1` once
/// trimmed.
pub open spec fn flag_text(s: Seq<char>) -> bool {
    let t = trim(s);
    t == "True"@ || t == "true"@ || t == "1"@
}

/// The disk described by one line of `Get-Disk` output, if it describes one:
/// the trimmed line must be non-empty, have at least seven `|`-separated
/// fields, and start with a disk number that fits in a `u32`. The size is 0
/// when its field is not a number; the disk is removable exactly when its bus
/// is `USB` (in any case), internal otherwise, and a system disk when it is
/// the boot or the system disk.
pub open spec fn get_disk_line(line: Seq<char>) -> Option<DiskView> {
    let t = trim(line);
    let f = split(t, '|');
    if t.len() == 0 || f.len() < 7 {
        None
    } else {
        match parse_bounded(trim(f[0]), u32::MAX as nat) {
            None => None,
            Some(number) => {
                let bus = trim(f[3]);
                let removable = eq_ignore_ascii_case(bus, "USB"@);
                Some(
                    DiskView {
                        id: dec(number),
                        raw_path: "\\\\.\\PhysicalDrive"@ + dec(number),
                        model: trim(f[1]),
                        size: match parse_bounded(trim(f[2]), u64::MAX as nat) {
                            Some(v) => v as u64,
                            None => 0,
                        },
                        bus,
                        removable,
                        internal: !removable,
                        system: flag_text(f[4]) || flag_text(f[5]),
                    },
                )
            },
        }
    }
}

/// The disks listed in `Get-Disk` output, in the order of their lines.
pub open spec fn get_disk_listing(text: Seq<char>) -> Seq<DiskView> {
    split(text, '\n').filter_map(|line: Seq<char>| get_disk_line(line))
}

/// Whether a `Get-Disk` boolean field is set (see `flag_text`).
pub fn parse_bool(s: &[char]) -> (b: bool)
    ensures
        b == flag_text(s@),
{
    let t = trim_chars(s);
    let n = t.len();
    let r = (n == 4 && t[0] == 'T' && t[1] == 'r' && t[2] == 'u' && t[3] == 'e') || (n == 4 && t[0]
        == 't' && t[1] == 'r' && t[2] == 'u' && t[3] == 'e') || (n == 1 && t[0] == '1');
    proof {
        reveal_strlit("True");
        reveal_strlit("true");
        reveal_strlit("1");
        if r {
            assert(t@ =~= "True"@ || t@ =~= "true"@ || t@ =~= "1"@);
        } else {
            assert(t@ != "True"@ && t@ != "true"@ && t@ != "1"@) by {
                if t@.len() == 4 {
                    if t@ == "True"@ {
                        assert(t@[0] == 'T' && t@[1] == 'r' && t@[2] == 'u' && t@[3] == 'e');
                    }
                    if t@ == "true"@ {
                        assert(t@[0] == 't' && t@[1] == 'r' && t@[2] == 'u' && t@[3] == 'e');
                    }
                }
                if t@ == "1"@ {
                    assert(t@[0] == '1');
                }
            }
        }
    }
    r
}

/// The disk described by one line of `Get-Disk` output (see `get_disk_line`).
pub fn disk_from_line(line: &[char]) -> (r: Option<Disk>)
    ensures
        match r {
            Some(d) => get_disk_line(line@) == Some(d@),
            None => get_disk_line(line@) is None,
        },
{
    let t = trim_chars(line);
    if t.len() == 0 {
        return None;
    }
    let f = split_chars(t.as_slice(), '|');
    if f.len() < 7 {
        return None;
    }
    let number_text = trim_chars(f[0].as_slice());
    let number = match parse_unsigned_chars(number_text.as_slice(), 4294967295) {
        Some(n) => n,
        None => {
            return None;
        },
    };
    let model = trim_chars(f[1].as_slice());
    let size_text = trim_chars(f[2].as_slice());
    let size = match parse_unsigned_chars(size_text.as_slice(), 18446744073709551615) {
        Some(v) => v,
        None => 0,
    };
    let bus = trim_chars(f[3].as_slice());
    let usb = ['U', 'S', 'B'];
    let removable = eq_ignore_ascii_case_chars(bus.as_slice(), usb.as_slice());
    let system = parse_bool(f[4].as_slice()) || parse_bool(f[5].as_slice());
    let mut id = String::new();
    push_dec(&mut id, number);
    let mut raw_path = String::new();
    push_str(&mut raw_path, "\\\\.\\PhysicalDrive");
    push_dec(&mut raw_path, number);
    let d = Disk {
        id,
        raw_path,
        model: string_of(model.as_slice()),
        size,
        bus: string_of(bus.as_slice()),
        removable,
        internal: !removable,
        system,
    };
    proof {
        reveal_strlit("USB");
        assert(usb@ =~= "USB"@);
        assert(u32::MAX as nat == 4294967295);
    }
    Some(d)
}

/// The disks listed in `Get-Disk` output `text` (see `get_disk_listing`).
pub fn disks_from_get_disk_text(text: &str) -> (r: Vec<Disk>)
    ensures
        disk_views(r@) == get_disk_listing(text@),
{
    let chars = chars_of(text);
    let lines = split_chars(chars.as_slice(), '\n');
    let ghost f = |line: Seq<char>| get_disk_line(line);
    let ghost all = split(text@, '\n');
    let mut out: Vec<Disk> = Vec::new();
    let mut i: usize = 0;
    while i < lines.len()
        invariant
            f == (|line: Seq<char>| get_disk_line(line)),
            all == split(text@, '\n'),
            lines@.len() == all.len(),
            forall|j: int| 0 <= j < lines@.len() ==> #[trigger] lines@[j]@ == all[j],
            i <= lines@.len(),
            disk_views(out@) == all.take(i as int).filter_map(f),
        decreases lines.len() - i,
    {
        proof {
            all.lemma_filter_map_take_succ(f, i as int);
        }
        let ghost before = out@;
        match disk_from_line(lines[i].as_slice()) {
            Some(d) => {
                out.push(d);
                assert(disk_views(out@) =~= disk_views(before) + seq![d@]);
            },
            None => {},
        }
        i = i + 1;
    }
    assert(all.take(all.len() as int) =~= all);
    out
}

/// The error for a PowerShell that could not be started to run `Get-Disk`.
pub fn command_failed(failure: &IoFailure) -> (e: Error)
    ensures
        e matches Error::Enumerate(m) && m@ == "running PowerShell Get-Disk: "@ + failure.message@,
{
    let mut m = String::from_str("running PowerShell Get-Disk: ");
    push_str(&mut m, failure.message.as_str());
    Error::Enumerate(m)
}

/// The message of the error for a failed `Get-Disk` run whose error output
/// was `stderr`.
pub open spec fn failed_message(stderr: Seq<u8>) -> Seq<char> {
    "Get-Disk failed: "@ + trim(utf8_lossy(stderr))
}

/// Enumerate disks from the result of running PowerShell's `Get-Disk`: whether
/// it exited successfully, and its standard output and error bytes.
pub fn list_disks(succeeded: bool, stdout: &[u8], stderr: &[u8]) -> (r: Result<Vec<Disk>>)
    ensures
        succeeded <==> r is Ok,
        r matches Ok(disks) ==> disk_views(disks@) == get_disk_listing(utf8_lossy(stdout@)),
        r matches Err(e) ==> (e matches Error::Enumerate(m) && m@ == failed_message(stderr@)),
{
    if !succeeded {
        let err_text = text_of_bytes(stderr);
        let mut m = String::from_str("Get-Disk failed: ");
        let t = crate::text::trim_str(err_text.as_str());
        push_str(&mut m, t.as_str());
        return Err(Error::Enumerate(m));
    }
    let text = text_of_bytes(stdout);
    Ok(disks_from_get_disk_text(text.as_str()))
}


/// `s` is `USB` in any mix of upper and lower case.
pub open spec fn is_usb_text(s: Seq<char>) -> bool {
    &&& s.len() == 3
    &&& s[0] == 'U' || s[0] == 'u'
    &&& s[1] == 'S' || s[1] == 's'
    &&& s[2] == 'B' || s[2] == 'b'
}

/// A `Get-Disk` line describes a removable disk exactly when its `BusType`
/// field (the fourth), trimmed, reads `USB` in any case; every other disk is
/// internal. The bus shown is that trimmed field, the model the trimmed
/// second field, and the raw path `\\.\PhysicalDrive` followed by the id.
pub proof fn lemma_get_disk_removable_iff_usb(line: Seq<char>)
    ensures
        get_disk_line(line) matches Some(d) ==> {
            let f = split(trim(line), '|');
            &&& d.removable == is_usb_text(trim(f[3]))
            &&& d.internal == !d.removable
            &&& d.bus == trim(f[3])
            &&& d.model == trim(f[1])
            &&& d.raw_path == "\\\\.\\PhysicalDrive"@ + d.id
        },
{
    if get_disk_line(line) is Some {
        let f = split(trim(line), '|');
        let bus = trim(f[3]);
        reveal_strlit("USB");
        assert("USB"@.len() == 3);
        if bus.len() == 3 {
            assert(eq_ignore_ascii_case(bus, "USB"@) <==> (ascii_lower(bus[0]) == ascii_lower('U')
                && ascii_lower(bus[1]) == ascii_lower('S') && ascii_lower(bus[2]) == ascii_lower(
                'B',
            )));
            lemma_ascii_lower_is(bus[0], 'U', 'u');
            lemma_ascii_lower_is(bus[1], 'S', 's');
            lemma_ascii_lower_is(bus[2], 'B', 'b');
        }
    }
}

proof fn lemma_ascii_lower_is(c: char, upper: char, lower: char)
    requires
        'A' <= upper <= 'Z',
        lower as u32 == upper as u32 + 32,
    ensures
        ascii_lower(c) == ascii_lower(upper) <==> (c == upper || c == lower),
{
    assert(ascii_lower(upper) == lower);
    if 'A' <= c <= 'Z' {
        assert((ascii_lower(c) as u32) == c as u32 + 32);
    }
}


/// A `Get-Disk` line describes a system disk exactly when its `IsBoot` or
/// its `IsSystem` field (the fifth and sixth), trimmed, reads `True`, `true`
/// or `1`.
pub proof fn lemma_get_disk_system_flags(line: Seq<char>)
    ensures
        get_disk_line(line) matches Some(d) ==> {
            let f = split(trim(line), '|');
            let set = |t: Seq<char>| t == "True"@ || t == "true"@ || t == "1"@;
            d.system == (set(trim(f[4])) || set(trim(f[5])))
        },
{
}

} // verus!
