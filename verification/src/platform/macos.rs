//! macOS: disks as `diskutil` describes them in property lists (`diskutil
//! list -plist` for the identifiers, `diskutil info -plist` for each disk and
//! for the boot volume).
use vstd::prelude::*;
use crate::disk::{Disk, DiskView};
use crate::error::{Error, IoFailure};
use crate::text::{chars_of, is_ascii_digit, is_ascii_digit_char, push_char, push_str, starts_with,
    starts_with_chars, string_of, trim, trim_str};

verus! {

/// A property-list value as plain data: arrays, dictionaries (their entries
/// in document order), booleans, integers (`None` when the integer does not
/// fit in an `i64`), strings, and every other kind of value.
pub enum PlistValue {
    Array(Vec<PlistValue>),
    Dictionary(Vec<(String, PlistValue)>),
    Boolean(bool),
    Integer(Option<i64>),
    String(String),
    Other,
}

#[verifier::external_type_specification]
#[verifier::external_body]
pub struct ExPlistValue(plist::Value);

/// What `plist::from_bytes` makes of a document: its value, or the text of
/// the parse error.
pub uninterp spec fn plist_document(bytes: Seq<u8>) -> Result<PlistValue, Seq<char>>;

/// Copies a `plist::Value` into a `PlistValue`, one variant for one variant.
#[verifier::external_body]
fn plain_value(v: &plist::Value) -> PlistValue {
    match v {
        plist::Value::Array(items) => PlistValue::Array(items.iter().map(plain_value).collect()),
        plist::Value::Dictionary(d) => PlistValue::Dictionary(
            d.iter().map(|(k, x)| (k.clone(), plain_value(x))).collect(),
        ),
        plist::Value::Boolean(b) => PlistValue::Boolean(*b),
        plist::Value::Integer(i) => PlistValue::Integer(i.as_signed()),
        plist::Value::String(s) => PlistValue::String(s.clone()),
        _ => PlistValue::Other,
    }
}

/// `plist::from_bytes` into a `plist::Value`: parses a property-list document
/// of any encoding. Stated here: the result is a function of the bytes; an
/// error is given by its message.
#[verifier::external_body]
fn parse_plist(bytes: &[u8]) -> (r: Result<PlistValue, String>)
    ensures
        match (r, plist_document(bytes@)) {
            (Ok(v), Ok(w)) => v == w,
            (Err(m), Err(w)) => m@ == w,
            _ => false,
        },
{
    match plist::from_bytes::<plist::Value>(bytes) {
        Ok(v) => Ok(plain_value(&v)),
        Err(e) => Err(e.to_string()),
    }
}

/// The value stored under `key` among dictionary entries (the first entry
/// with that key; a dictionary holds each key once).
pub open spec fn lookup(entries: Seq<(String, PlistValue)>, key: Seq<char>) -> Option<PlistValue>
    decreases entries.len(),
{
    if entries.len() == 0 {
        None
    } else if entries[0].0@ == key {
        Some(entries[0].1)
    } else {
        lookup(entries.drop_first(), key)
    }
}

/// `value.as_dictionary().and_then(|d| d.get(key))`.
pub open spec fn get_key(value: PlistValue, key: Seq<char>) -> Option<PlistValue> {
    match value {
        PlistValue::Dictionary(entries) => lookup(entries@, key),
        _ => None,
    }
}

/// The text of a string value.
pub open spec fn text_value(value: Option<PlistValue>) -> Option<Seq<char>> {
    match value {
        Some(PlistValue::String(s)) => Some(s@),
        _ => None,
    }
}

/// A key's string value, or empty.
pub open spec fn text_or_empty(d: PlistValue, key: Seq<char>) -> Seq<char> {
    match text_value(get_key(d, key)) {
        Some(t) => t,
        None => Seq::empty(),
    }
}

/// A key's boolean value, or false.
pub open spec fn flag_or_false(d: PlistValue, key: Seq<char>) -> bool {
    match get_key(d, key) {
        Some(PlistValue::Boolean(b)) => b,
        _ => false,
    }
}

/// A key's signed integer value, or 0.
pub open spec fn signed_or_zero(d: PlistValue, key: Seq<char>) -> i64 {
    match get_key(d, key) {
        Some(PlistValue::Integer(Some(v))) => v,
        _ => 0,
    }
}

/// The device identifiers listed by `diskutil list -plist`: the
/// `DeviceIdentifier` of every dictionary in `AllDisksAndPartitions`.
pub open spec fn listed_ids(doc: PlistValue) -> Seq<Seq<char>> {
    match get_key(doc, "AllDisksAndPartitions"@) {
        Some(PlistValue::Array(items)) => items@.filter_map(
            |d: PlistValue| text_value(get_key(d, "DeviceIdentifier"@)),
        ),
        _ => Seq::empty(),
    }
}

/// The decimal digits at the start of `s`.
pub open spec fn leading_digits(s: Seq<char>) -> Seq<char>
    decreases s.len(),
{
    if s.len() > 0 && is_ascii_digit(s[0]) {
        seq![s[0]] + leading_digits(s.drop_first())
    } else {
        Seq::empty()
    }
}

/// The whole disk of a BSD identifier: "disk0s2" -> "disk0"; identifiers
/// not starting with "disk" are kept.
pub open spec fn whole_disk_text(id: Seq<char>) -> Seq<char> {
    if starts_with(id, "disk"@) {
        "disk"@ + leading_digits(id.skip(4))
    } else {
        id
    }
}

/// The whole disks backing the boot volume, from `diskutil info -plist /`:
/// its `ParentWholeDisk`, then the whole disk of each `APFSPhysicalStore`
/// (on APFS the root volume lives on a synthesized disk whose physical store
/// is a partition of the real disk).
pub open spec fn boot_ids(info: PlistValue) -> Seq<Seq<char>> {
    let parent = match text_value(get_key(info, "ParentWholeDisk"@)) {
        Some(p) => seq![p],
        None => Seq::empty(),
    };
    let stores = match get_key(info, "APFSPhysicalStores"@) {
        Some(PlistValue::Array(items)) => items@.filter_map(
            |s: PlistValue| text_value(get_key(s, "APFSPhysicalStore"@)),
        ).map_values(|p: Seq<char>| whole_disk_text(p)),
        _ => Seq::empty(),
    };
    parent + stores
}

/// The disk `diskutil info -plist <id>` describes, if it is a whole disk.
/// Its size is the `Size` (negative counts as 0), its model the `MediaName`
/// or, when that is blank, the `IORegistryEntryName`, trimmed; it is internal
/// per `Internal`, removable per `RemovableMedia` or
/// `RemovableMediaOrExternalDevice`, its bus is `BusProtocol`, and it is a
/// system disk when it is `OSInternalMedia` or backs the boot volume.
pub open spec fn info_disk(id: Seq<char>, boot: Seq<Seq<char>>, info: PlistValue) -> Option<
    DiskView,
> {
    if !(info is Dictionary) || !flag_or_false(info, "WholeDisk"@) {
        None
    } else {
        let size = signed_or_zero(info, "Size"@);
        let media = text_or_empty(info, "MediaName"@);
        let model = if trim(media).len() == 0 {
            text_or_empty(info, "IORegistryEntryName"@)
        } else {
            media
        };
        Some(
            DiskView {
                id,
                raw_path: "/dev/r"@ + id,
                model: trim(model),
                size: if size < 0 {
                    0
                } else {
                    size as u64
                },
                bus: text_or_empty(info, "BusProtocol"@),
                removable: flag_or_false(info, "RemovableMedia"@) || flag_or_false(
                    info,
                    "RemovableMediaOrExternalDevice"@,
                ),
                internal: flag_or_false(info, "Internal"@),
                system: flag_or_false(info, "OSInternalMedia"@) || boot.contains(id),
            },
        )
    }
}

/// Whether a value is a dictionary.
fn is_dictionary(v: &PlistValue) -> (b: bool)
    ensures
        b == (*v is Dictionary),
{
    match v {
        PlistValue::Dictionary(_) => true,
        _ => false,
    }
}

/// The value stored under `key` in `value`, if it is a dictionary.
pub fn get<'b>(value: &'b PlistValue, key: &str) -> (r: Option<&'b PlistValue>)
    ensures
        match r {
            Some(v) => get_key(*value, key@) == Some(*v),
            None => get_key(*value, key@) is None,
        },
{
    match value {
        PlistValue::Dictionary(entries) => {
            let k = String::from_str(key);
            let mut i: usize = 0;
            assert(entries@.skip(0) =~= entries@);
            while i < entries.len()
                invariant
                    i <= entries@.len(),
                    k@ == key@,
                    get_key(*value, key@) == lookup(entries@, key@),
                    lookup(entries@, key@) == lookup(entries@.skip(i as int), key@),
                decreases entries.len() - i,
            {
                assert(entries@.skip(i as int).drop_first() =~= entries@.skip(i + 1));
                if entries[i].0 == k {
                    assert(entries@.skip(i as int)[0] == entries@[i as int]);
                    assert(entries@[i as int].0@ == key@);
                    assert(lookup(entries@.skip(i as int), key@) == Some(entries@[i as int].1));
                    assert(get_key(*value, key@) == Some(entries@[i as int].1));
                    return Some(&entries[i].1);
                }
                i = i + 1;
            }
            None
        },
        _ => None,
    }
}

/// The text of a string value.
fn as_string<'b>(value: Option<&'b PlistValue>) -> (r: Option<&'b String>)
    ensures
        match r {
            Some(s) => text_value(match value {
                Some(v) => Some(*v),
                None => None,
            }) == Some(s@),
            None => text_value(match value {
                Some(v) => Some(*v),
                None => None,
            }) is None,
        },
{
    match value {
        Some(PlistValue::String(s)) => Some(s),
        _ => None,
    }
}

/// The error for a `diskutil` listing that could not be parsed.
pub open spec fn parse_failed_message(detail: Seq<char>) -> Seq<char> {
    "parsing diskutil output: "@ + detail
}

/// The device identifiers of a parsed `diskutil list -plist` document (see
/// `listed_ids`). A document that failed to parse, or whose top level is not
/// a dictionary, is an enumeration error.
pub fn ids_from_listing(doc: Result<PlistValue, String>) -> (r: Result<Vec<String>, Error>)
    ensures
        match doc {
            Err(m) => r matches Err(Error::Enumerate(t)) && t@ == parse_failed_message(m@),
            Ok(v) => if v is Dictionary {
                r matches Ok(ids) && ids@.map_values(|s: String| s@) == listed_ids(v)
            } else {
                r matches Err(Error::Enumerate(t)) && t@ == "unexpected diskutil output"@
            },
        },
{
    let v = match doc {
        Err(m) => {
            let mut t = String::from_str("parsing diskutil output: ");
            push_str(&mut t, m.as_str());
            return Err(Error::Enumerate(t));
        },
        Ok(v) => v,
    };
    if !is_dictionary(&v) {
        return Err(Error::Enumerate(String::from_str("unexpected diskutil output")));
    }
    let mut ids: Vec<String> = Vec::new();
    let ghost f = |d: PlistValue| text_value(get_key(d, "DeviceIdentifier"@));
    match get(&v, "AllDisksAndPartitions") {
        Some(PlistValue::Array(items)) => {
            let mut i: usize = 0;
            while i < items.len()
                invariant
                    f == (|d: PlistValue| text_value(get_key(d, "DeviceIdentifier"@))),
                    i <= items@.len(),
                    ids@.map_values(|s: String| s@) == items@.take(i as int).filter_map(f),
                decreases items.len() - i,
            {
                proof {
                    items@.lemma_filter_map_take_succ(f, i as int);
                }
                let ghost before = ids@;
                match as_string(get(&items[i], "DeviceIdentifier")) {
                    Some(s) => {
                        ids.push(s.clone());
                        assert(ids@.map_values(|s: String| s@) =~= before.map_values(
                            |s: String| s@,
                        ) + seq![s@]);
                    },
                    None => {},
                }
                i = i + 1;
            }
            assert(items@.take(items@.len() as int) =~= items@);
        },
        _ => {
            assert(ids@.map_values(|s: String| s@) =~= Seq::<Seq<char>>::empty());
        },
    }
    Ok(ids)
}

/// The device identifiers listed in the bytes `diskutil list -plist` printed.
pub fn disk_ids(listing: &[u8]) -> (r: Result<Vec<String>, Error>)
    ensures
        match plist_document(listing@) {
            Err(m) => r matches Err(Error::Enumerate(t)) && t@ == parse_failed_message(m),
            Ok(v) => if v is Dictionary {
                r matches Ok(ids) && ids@.map_values(|s: String| s@) == listed_ids(v)
            } else {
                r matches Err(Error::Enumerate(t)) && t@ == "unexpected diskutil output"@
            },
        },
{
    ids_from_listing(parse_plist(listing))
}

/// Strip the partition suffix from a BSD identifier: "disk0s2" -> "disk0".
pub fn whole_disk_of(id: &str) -> (r: String)
    ensures
        r@ == whole_disk_text(id@),
{
    let cs = chars_of(id);
    let prefix = ['d', 'i', 's', 'k'];
    proof {
        reveal_strlit("disk");
        assert(prefix@ =~= "disk"@);
    }
    if !starts_with_chars(cs.as_slice(), prefix.as_slice()) {
        return String::from_str(id);
    }
    let mut r = String::from_str("disk");
    let mut i: usize = 4;
    assert(leading_digits(cs@.skip(4)) == leading_digits(cs@.skip(4 as int)));
    while i < cs.len() && is_ascii_digit_char(cs[i])
        invariant
            4 <= i <= cs@.len(),
            r@ + leading_digits(cs@.skip(i as int)) == "disk"@ + leading_digits(cs@.skip(4)),
        decreases cs.len() - i,
    {
        let ghost before = r@;
        assert(cs@.skip(i as int).drop_first() =~= cs@.skip(i + 1));
        assert(leading_digits(cs@.skip(i as int)) == seq![cs@[i as int]] + leading_digits(
            cs@.skip(i + 1),
        ));
        push_char(&mut r, cs[i]);
        assert(r@ + leading_digits(cs@.skip(i + 1)) =~= before + leading_digits(
            cs@.skip(i as int),
        ));
        i = i + 1;
    }
    assert(leading_digits(cs@.skip(i as int)) =~= Seq::<char>::empty());
    assert(r@ =~= r@ + leading_digits(cs@.skip(i as int)));
    r
}

/// The whole disks backing the boot volume, from the parsed output of
/// `diskutil info -plist /` (see `boot_ids`). A document that did not parse,
/// or is not a dictionary, gives none.
pub fn boot_ids_from_info(doc: Result<PlistValue, String>) -> (r: Vec<String>)
    ensures
        match doc {
            Ok(v) => if v is Dictionary {
                r@.map_values(|s: String| s@) == boot_ids(v)
            } else {
                r@.len() == 0
            },
            Err(_) => r@.len() == 0,
        },
{
    let v = match doc {
        Ok(v) => v,
        Err(_) => {
            return Vec::new();
        },
    };
    if !is_dictionary(&v) {
        return Vec::new();
    }
    let mut ids: Vec<String> = Vec::new();
    let ghost parent = match text_value(get_key(v, "ParentWholeDisk"@)) {
        Some(p) => seq![p],
        None => Seq::<Seq<char>>::empty(),
    };
    match as_string(get(&v, "ParentWholeDisk")) {
        Some(p) => {
            ids.push(p.clone());
        },
        None => {},
    }
    assert(ids@.map_values(|s: String| s@) =~= parent);
    let ghost f = |s: PlistValue| text_value(get_key(s, "APFSPhysicalStore"@));
    let ghost w = |p: Seq<char>| whole_disk_text(p);
    match get(&v, "APFSPhysicalStores") {
        Some(PlistValue::Array(items)) => {
            let mut i: usize = 0;
            while i < items.len()
                invariant
                    f == (|s: PlistValue| text_value(get_key(s, "APFSPhysicalStore"@))),
                    w == (|p: Seq<char>| whole_disk_text(p)),
                    i <= items@.len(),
                    ids@.map_values(|s: String| s@) == parent + items@.take(i as int).filter_map(
                        f,
                    ).map_values(w),
                decreases items.len() - i,
            {
                proof {
                    items@.lemma_filter_map_take_succ(f, i as int);
                }
                let ghost before = ids@;
                match as_string(get(&items[i], "APFSPhysicalStore")) {
                    Some(part) => {
                        let whole = whole_disk_of(part.as_str());
                        ids.push(whole);
                        assert(items@.take(i + 1).filter_map(f).map_values(w) =~= items@.take(
                            i as int,
                        ).filter_map(f).map_values(w) + seq![whole_disk_text(part@)]);
                        assert(ids@.map_values(|s: String| s@) =~= before.map_values(
                            |s: String| s@,
                        ) + seq![whole@]);
                    },
                    None => {
                        assert(items@.take(i + 1).filter_map(f) =~= items@.take(
                            i as int,
                        ).filter_map(f));
                    },
                }
                i = i + 1;
            }
            assert(items@.take(items@.len() as int) =~= items@);
        },
        _ => {
            assert(parent + Seq::<Seq<char>>::empty() =~= parent);
        },
    }
    ids
}

/// The whole disks backing the boot volume, from the bytes `diskutil info
/// -plist /` printed (`None` when it could not be run or failed).
pub fn boot_disk_ids(info: Option<&[u8]>) -> (r: Vec<String>)
    ensures
        match info {
            Some(bytes) => match plist_document(bytes@) {
                Ok(v) => if v is Dictionary {
                    r@.map_values(|s: String| s@) == boot_ids(v)
                } else {
                    r@.len() == 0
                },
                Err(_) => r@.len() == 0,
            },
            None => r@.len() == 0,
        },
{
    match info {
        Some(bytes) => boot_ids_from_info(parse_plist(bytes)),
        None => Vec::new(),
    }
}

/// A key's boolean value, or false.
fn flag(d: &PlistValue, key: &str) -> (b: bool)
    ensures
        b == flag_or_false(*d, key@),
{
    match get(d, key) {
        Some(PlistValue::Boolean(b)) => *b,
        _ => false,
    }
}

/// A key's string value, or empty.
fn text(d: &PlistValue, key: &str) -> (s: String)
    ensures
        s@ == text_or_empty(*d, key@),
{
    match as_string(get(d, key)) {
        Some(s) => s.clone(),
        None => String::new(),
    }
}

/// Whether `id` is one of `ids`.
fn listed(ids: &[String], id: &str) -> (b: bool)
    ensures
        b == ids@.map_values(|s: String| s@).contains(id@),
{
    let target = String::from_str(id);
    let ghost views = ids@.map_values(|s: String| s@);
    let mut i: usize = 0;
    while i < ids.len()
        invariant
            i <= ids@.len(),
            target@ == id@,
            views == ids@.map_values(|s: String| s@),
            forall|k: int| 0 <= k < i ==> ids@[k]@ != id@,
        decreases ids.len() - i,
    {
        if ids[i] == target {
            assert(views[i as int] == id@);
            return true;
        }
        i = i + 1;
    }
    assert forall|k: int| 0 <= k < views.len() implies views[k] != id@ by {
        assert(views[k] == ids@[k]@);
    }
    false
}

/// The disk a parsed `diskutil info -plist <id>` document describes, if it
/// is a whole disk (see `info_disk`); `boot_ids` are the disks backing the
/// boot volume.
pub fn disk_from_info(id: &str, boot_ids: &[String], doc: Result<PlistValue, String>) -> (r: Option<
    Disk,
>)
    ensures
        match doc {
            Ok(v) => match r {
                Some(d) => info_disk(id@, boot_ids@.map_values(|s: String| s@), v) == Some(d@),
                None => info_disk(id@, boot_ids@.map_values(|s: String| s@), v) is None,
            },
            Err(_) => r is None,
        },
{
    let d = match doc {
        Ok(v) => v,
        Err(_) => {
            return None;
        },
    };
    if !is_dictionary(&d) || !flag(&d, "WholeDisk") {
        return None;
    }
    let size_value: i64 = match get(&d, "Size") {
        Some(PlistValue::Integer(Some(v))) => *v,
        _ => 0,
    };
    let size: u64 = if size_value < 0 {
        0
    } else {
        size_value as u64
    };
    let media = text(&d, "MediaName");
    let media_trimmed = trim_str(media.as_str());
    let model = if media_trimmed.unicode_len() == 0 {
        text(&d, "IORegistryEntryName")
    } else {
        media
    };
    let internal = flag(&d, "Internal");
    let removable = flag(&d, "RemovableMedia") || flag(&d, "RemovableMediaOrExternalDevice");
    let bus = text(&d, "BusProtocol");
    let system = flag(&d, "OSInternalMedia") || listed(boot_ids, id);
    let mut raw_path = String::from_str("/dev/r");
    push_str(&mut raw_path, id);
    Some(
        Disk {
            id: String::from_str(id),
            raw_path,
            model: trim_str(model.as_str()),
            size,
            bus,
            removable,
            internal,
            system,
        },
    )
}

/// The disk described by the bytes `diskutil info -plist <id>` printed, if it
/// is a whole disk; `None` too when the command failed (`succeeded` false)
/// or its output did not parse.
pub fn disk_info(id: &str, boot_ids: &[String], succeeded: bool, output: &[u8]) -> (r: Option<
    Disk,
>)
    ensures
        !succeeded ==> r is None,
        succeeded ==> match plist_document(output@) {
            Ok(v) => match r {
                Some(d) => info_disk(id@, boot_ids@.map_values(|s: String| s@), v) == Some(d@),
                None => info_disk(id@, boot_ids@.map_values(|s: String| s@), v) is None,
            },
            Err(_) => r is None,
        },
{
    if !succeeded {
        return None;
    }
    disk_from_info(id, boot_ids, parse_plist(output))
}

/// The error for a `diskutil` run that could not be started: what it was
/// asked (`what`) and the failure.
pub fn command_failed(what: &str, failure: &IoFailure) -> (e: Error)
    ensures
        e matches Error::Enumerate(m) && m@ == "running "@ + what@ + ": "@ + failure.message@,
{
    let mut m = String::from_str("running ");
    push_str(&mut m, what);
    push_str(&mut m, ": ");
    push_str(&mut m, failure.message.as_str());
    Error::Enumerate(m)
}

/// The error for a device that could not be opened: `Busy` when the OS
/// reports EBUSY (16), otherwise the I/O failure with the path as context.
pub fn map_open_err(path: &str, failure: IoFailure) -> (e: Error)
    ensures
        failure.raw_os_error == Some(16i32) ==> (e matches Error::Busy(m) && m@ == path@
            + " is busy. Make sure the drive is not mounted, then try again."@),
        failure.raw_os_error != Some(16i32) ==> crate::flash::is_io_error(
            e,
            "opening "@ + path@,
            failure,
        ),
{
    if failure.raw_os_error == Some(16) {
        let mut m = String::from_str(path);
        push_str(&mut m, " is busy. Make sure the drive is not mounted, then try again.");
        Error::Busy(m)
    } else {
        let mut ctx = String::from_str("opening ");
        push_str(&mut ctx, path);
        Error::io(ctx.as_str(), failure)
    }
}


/// A disk built from a `diskutil info` dictionary takes each field from the
/// key of that name: it exists exactly for a dictionary whose `WholeDisk` is
/// true; its id and raw path come from the identifier asked about; its bus is
/// the string under `BusProtocol` (empty when there is none); it is internal
/// exactly when `Internal` is true, removable exactly when `RemovableMedia`
/// or `RemovableMediaOrExternalDevice` is true, and a system disk exactly
/// when `OSInternalMedia` is true or it backs the boot volume; its size is a
/// non-negative `Size`, else 0.
pub proof fn lemma_info_disk_keys(id: Seq<char>, boot: Seq<Seq<char>>, info: PlistValue)
    ensures
        info_disk(id, boot, info) is Some <==> (info is Dictionary && get_key(info, "WholeDisk"@)
            == Some(PlistValue::Boolean(true))),
        info_disk(id, boot, info) matches Some(d) ==> {
            &&& d.id == id
            &&& d.raw_path == "/dev/r"@ + id
            &&& d.bus == (match get_key(info, "BusProtocol"@) {
                Some(PlistValue::String(s)) => s@,
                _ => Seq::<char>::empty(),
            })
            &&& d.internal == (get_key(info, "Internal"@) == Some(PlistValue::Boolean(true)))
            &&& d.removable == (get_key(info, "RemovableMedia"@) == Some(PlistValue::Boolean(true))
                || get_key(info, "RemovableMediaOrExternalDevice"@) == Some(
                PlistValue::Boolean(true),
            ))
            &&& d.system == (get_key(info, "OSInternalMedia"@) == Some(PlistValue::Boolean(true))
                || boot.contains(id))
            &&& d.size == (match get_key(info, "Size"@) {
                Some(PlistValue::Integer(Some(v))) => if v >= 0 {
                    v as u64
                } else {
                    0u64
                },
                _ => 0u64,
            })
        },
{
}


/// The whole disk of an identifier that starts with `disk` is `disk`
/// followed by the digits that come right after it in the identifier: a
/// prefix of the identifier, all digits past `disk`, and not followed by a
/// further digit. Other identifiers are their own whole disk.
pub proof fn lemma_whole_disk_text(id: Seq<char>)
    ensures
        !(id.len() >= 4 && id.take(4) == "disk"@) ==> whole_disk_text(id) == id,
        id.len() >= 4 && id.take(4) == "disk"@ ==> {
            let w = whole_disk_text(id);
            &&& 4 <= w.len() <= id.len()
            &&& w == id.take(w.len() as int)
            &&& forall|i: int| 4 <= i < w.len() ==> '0' <= #[trigger] w[i] <= '9'
            &&& w.len() < id.len() ==> !('0' <= id[w.len() as int] <= '9')
        },
{
    reveal_strlit("disk");
    if id.len() >= 4 && id.take(4) == "disk"@ {
        assert(starts_with(id, "disk"@));
        lemma_leading_digits(id.skip(4));
        let w = whole_disk_text(id);
        let l = leading_digits(id.skip(4));
        assert(w == "disk"@ + l);
        assert(w =~= id.take(w.len() as int)) by {
            assert forall|i: int| 0 <= i < w.len() implies w[i] == id[i] by {
                if i >= 4 {
                    assert(l[i - 4] == id.skip(4)[i - 4]);
                }
            }
        }
        assert forall|i: int| 4 <= i < w.len() implies '0' <= #[trigger] w[i] <= '9' by {
            assert(w[i] == l[i - 4]);
        }
        if w.len() < id.len() {
            assert(id[w.len() as int] == id.skip(4)[l.len() as int]);
        }
    } else {
        assert(!starts_with(id, "disk"@));
    }
}

proof fn lemma_leading_digits(s: Seq<char>)
    ensures
        leading_digits(s).len() <= s.len(),
        leading_digits(s) == s.take(leading_digits(s).len() as int),
        forall|i: int| 0 <= i < leading_digits(s).len() ==> is_ascii_digit(#[trigger] leading_digits(s)[i]),
        leading_digits(s).len() < s.len() ==> !is_ascii_digit(s[leading_digits(s).len() as int]),
    decreases s.len(),
{
    if s.len() > 0 && is_ascii_digit(s[0]) {
        lemma_leading_digits(s.drop_first());
        let r = leading_digits(s.drop_first());
        assert(leading_digits(s) == seq![s[0]] + r);
        assert(leading_digits(s) =~= s.take(leading_digits(s).len() as int)) by {
            assert forall|i: int| 0 <= i < leading_digits(s).len() implies leading_digits(s)[i]
                == s[i] by {
                if i > 0 {
                    assert(r[i - 1] == s.drop_first()[i - 1]);
                }
            }
        }
        assert forall|i: int| 0 <= i < leading_digits(s).len() implies is_ascii_digit(
            #[trigger] leading_digits(s)[i],
        ) by {
            if i > 0 {
                assert(leading_digits(s)[i] == r[i - 1]);
            }
        }
        if leading_digits(s).len() < s.len() {
            assert(s[leading_digits(s).len() as int] == s.drop_first()[r.len() as int]);
        }
    } else {
        assert(leading_digits(s) =~= s.take(0));
    }
}

} // verus!
