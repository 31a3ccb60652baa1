//! Linux: whole disks as `/sys/block` describes them, and the mount table of
//! `/proc/mounts` to tell which disk holds the running system.
use vstd::prelude::*;
use vstd::multiset::Multiset;
use crate::disk::{disk_views, Disk, DiskView};
use crate::error::{Error, IoFailure};
use crate::text::{
    chars_of, contains_chars, contains_text, is_ascii_digit, is_ascii_digit_char, parse_bounded,
    parse_unsigned_chars, push_str, split, split_chars, starts_with, starts_with_chars, string_of,
    trim, trim_chars, words, words_of,
};

verus! {

/// Does block device `dev` (e.g. "nvme0n1p2", "sda1") belong to whole disk
/// `disk`: it is the disk itself, or the disk's name followed by `p`, or by a
/// digit when the disk's name does not end in one ("nvme0n10" is a disk of
/// its own, not a partition of "nvme0n1").
pub open spec fn is_partition_of(dev: Seq<char>, disk: Seq<char>) -> bool {
    ||| dev == disk
    ||| starts_with(dev, disk) && dev.len() > disk.len() && (dev[disk.len() as int] == 'p'
        || (is_ascii_digit(dev[disk.len() as int]) && !(disk.len() > 0 && is_ascii_digit(
        disk.last(),
    ))))
}

/// A mount point that belongs to the running system: `/`, `/usr`, `/var`, or
/// anything starting with `/boot`.
pub open spec fn is_system_mount_point(mp: Seq<char>) -> bool {
    mp == "/"@ || starts_with(mp, "/boot"@) || mp == "/usr"@ || mp == "/var"@
}

/// True if any partition of the disk named `disk` is mounted (from a `/dev/`
/// node) at a system mount point.
pub open spec fn holds_system(disk: Seq<char>, mounts: Seq<(String, String)>) -> bool {
    exists|i: int|
        0 <= i < mounts.len() && starts_with(#[trigger] mounts[i].0@, "/dev/"@) && is_partition_of(
            mounts[i].0@.skip(5),
            disk,
        ) && is_system_mount_point(mounts[i].1@)
}

/// The (source device, mount point) pair of one mount-table line: its first
/// two words, if it has two.
pub open spec fn mount_line(line: Seq<char>) -> Option<(Seq<char>, Seq<char>)> {
    let w = words(line);
    if w.len() >= 2 {
        Some((w[0], w[1]))
    } else {
        None
    }
}

/// The (source device, mount point) pairs of a mount table, in order.
pub open spec fn mount_table(text: Seq<char>) -> Seq<(Seq<char>, Seq<char>)> {
    split(text, '\n').filter_map(|line: Seq<char>| mount_line(line))
}

/// The views of a list of string pairs.
pub open spec fn pair_views(pairs: Seq<(String, String)>) -> Seq<(Seq<char>, Seq<char>)> {
    pairs.map_values(|p: (String, String)| (p.0@, p.1@))
}

/// What a sysfs attribute file holds once trimmed, if it could be read and is
/// not blank.
pub open spec fn attribute_text(content: Option<String>) -> Option<Seq<char>> {
    match content {
        Some(c) => if trim(c@).len() > 0 {
            Some(trim(c@))
        } else {
            None
        },
        None => None,
    }
}

/// A numeric sysfs attribute, if it could be read and parses as a `u64`.
pub open spec fn attribute_number(content: Option<String>) -> Option<u64> {
    match attribute_text(content) {
        Some(t) => match parse_bounded(t, u64::MAX as nat) {
            Some(v) => Some(v as u64),
            None => None,
        },
        None => None,
    }
}

/// What is read of one entry of `/sys/block`: its name, the contents of the
/// attribute files the listing looks at (`None` where a file could not be
/// read), and the entry's canonical path in the sysfs tree (`None` where it
/// could not be resolved).
pub struct SysBlockEntry {
    pub name: String,
    /// `size`: the capacity in 512-byte sectors.
    pub size: Option<String>,
    /// `removable`.
    pub removable: Option<String>,
    /// `queue/rotational`.
    pub rotational: Option<String>,
    /// `device/model`.
    pub model: Option<String>,
    /// `device/name`.
    pub device_name: Option<String>,
    /// The canonical path of the entry.
    pub canonical_path: Option<String>,
}

/// Block devices that are never whole disks: loop, RAM, compressed-RAM,
/// optical, device-mapper, software-RAID, floppy and network block devices.
pub open spec fn is_virtual_device(name: Seq<char>) -> bool {
    ||| starts_with(name, "loop"@)
    ||| starts_with(name, "ram"@)
    ||| starts_with(name, "zram"@)
    ||| starts_with(name, "sr"@)
    ||| starts_with(name, "dm-"@)
    ||| starts_with(name, "md"@)
    ||| starts_with(name, "fd"@)
    ||| starts_with(name, "nbd"@)
}

/// The capacity in bytes of an entry: its sector count (0 when unknown) times 512.
pub open spec fn entry_size(e: SysBlockEntry) -> int {
    match attribute_number(e.size) {
        Some(v) => v * 512,
        None => 0,
    }
}

/// Whether the entry sits on a USB controller in the sysfs tree.
pub open spec fn entry_on_usb(e: SysBlockEntry) -> bool {
    match e.canonical_path {
        Some(p) => contains_text(p@, "/usb"@),
        None => false,
    }
}

/// The disk an entry of `/sys/block` describes, if it is one: virtual devices
/// and empty ones (size 0) are skipped. The disk is removable when sysfs says
/// so or when it sits on USB (many USB bridges report removable=0), internal
/// otherwise; its bus is `USB` on USB, `NVMe` for `nvme*` names, `USB` for
/// other removable disks, else `SATA (HDD)` when rotational (the default)
/// and `SATA` when not; its model is `device/model`, else `device/name`,
/// else empty; and it is a system disk when it holds a system mount.
pub open spec fn entry_disk(e: SysBlockEntry, mounts: Seq<(String, String)>) -> Option<DiskView> {
    let name = e.name@;
    let size = entry_size(e);
    if is_virtual_device(name) || size == 0 {
        None
    } else {
        let on_usb = entry_on_usb(e);
        let removable = attribute_number(e.removable) == Some(1u64) || on_usb;
        let rotational = match attribute_number(e.rotational) {
            Some(v) => v == 1,
            None => true,
        };
        Some(
            DiskView {
                id: name,
                raw_path: "/dev/"@ + name,
                model: match attribute_text(e.model) {
                    Some(m) => m,
                    None => match attribute_text(e.device_name) {
                        Some(m) => m,
                        None => Seq::empty(),
                    },
                },
                size: size as u64,
                bus: if on_usb {
                    "USB"@
                } else if starts_with(name, "nvme"@) {
                    "NVMe"@
                } else if removable {
                    "USB"@
                } else if rotational {
                    "SATA (HDD)"@
                } else {
                    "SATA"@
                },
                removable,
                internal: !removable,
                system: holds_system(name, mounts),
            },
        )
    }
}

/// `a` sorts before `b`: the order of `str`'s `Ord`, character by character
/// (UTF-8 byte order is code point order), a proper prefix first.
pub open spec fn text_less(a: Seq<char>, b: Seq<char>) -> bool
    decreases a.len(),
{
    if b.len() == 0 {
        false
    } else if a.len() == 0 {
        true
    } else if a[0] != b[0] {
        (a[0] as u32) < (b[0] as u32)
    } else {
        text_less(a.drop_first(), b.drop_first())
    }
}

/// The disks of `ds` whose id is `k`, in their order in `ds`.
pub open spec fn with_id(ds: Seq<DiskView>, k: Seq<char>) -> Seq<DiskView> {
    ds.filter(|v: DiskView| v.id == k)
}

/// Disks ordered by id.
pub open spec fn sorted_by_id(ds: Seq<DiskView>) -> bool {
    forall|i: int, j: int| 0 <= i < j < ds.len() ==> !text_less(ds[j].id, ds[i].id)
}

proof fn lemma_text_less_transitive(a: Seq<char>, b: Seq<char>, c: Seq<char>)
    requires
        text_less(a, b),
        text_less(b, c),
    ensures
        text_less(a, c),
    decreases a.len(),
{
    if a.len() > 0 && a[0] == b[0] && b[0] == c[0] {
        lemma_text_less_transitive(a.drop_first(), b.drop_first(), c.drop_first());
    }
}

proof fn lemma_text_less_asymmetric(a: Seq<char>, b: Seq<char>)
    ensures
        !(text_less(a, b) && text_less(b, a)),
    decreases a.len(),
{
    if a.len() > 0 && b.len() > 0 && a[0] == b[0] {
        lemma_text_less_asymmetric(a.drop_first(), b.drop_first());
    }
}

/// Whether `a` sorts before `b` (see `text_less`).
pub fn id_less(a: &[char], b: &[char]) -> (r: bool)
    ensures
        r == text_less(a@, b@),
{
    let mut i: usize = 0;
    assert(a@.skip(0) =~= a@);
    assert(b@.skip(0) =~= b@);
    while i < a.len() && i < b.len()
        invariant
            i <= a@.len(),
            i <= b@.len(),
            text_less(a@, b@) == text_less(a@.skip(i as int), b@.skip(i as int)),
        decreases a.len() - i,
    {
        if a[i] != b[i] {
            return (a[i] as u32) < (b[i] as u32);
        }
        assert(a@.skip(i as int).drop_first() =~= a@.skip(i + 1));
        assert(b@.skip(i as int).drop_first() =~= b@.skip(i + 1));
        i = i + 1;
    }
    i < b.len()
}

/// Does block device `dev` belong to whole disk `disk` (see `is_partition_of`).
pub fn partition_belongs(dev: &[char], disk: &[char]) -> (b: bool)
    ensures
        b == is_partition_of(dev@, disk@),
{
    if crate::text::chars_eq(dev, disk) {
        return true;
    }
    if starts_with_chars(dev, disk) && dev.len() > disk.len() {
        let c = dev[disk.len()];
        let disk_ends_in_digit = disk.len() > 0 && is_ascii_digit_char(disk[disk.len() - 1]);
        return c == 'p' || (is_ascii_digit_char(c) && !disk_ends_in_digit);
    }
    false
}

/// Whether a mount point belongs to the running system.
fn system_mount_point(mp: &[char]) -> (b: bool)
    ensures
        b == is_system_mount_point(mp@),
{
    let root = ['/'];
    let boot = ['/', 'b', 'o', 'o', 't'];
    let usr = ['/', 'u', 's', 'r'];
    let var = ['/', 'v', 'a', 'r'];
    proof {
        reveal_strlit("/");
        reveal_strlit("/boot");
        reveal_strlit("/usr");
        reveal_strlit("/var");
        assert(root@ =~= "/"@);
        assert(boot@ =~= "/boot"@);
        assert(usr@ =~= "/usr"@);
        assert(var@ =~= "/var"@);
    }
    crate::text::chars_eq(mp, root.as_slice()) || starts_with_chars(mp, boot.as_slice())
        || crate::text::chars_eq(mp, usr.as_slice()) || crate::text::chars_eq(mp, var.as_slice())
}

/// True if any partition of `disk_name` is mounted at a core system path.
pub fn disk_holds_system(disk_name: &str, mounts: &[(String, String)]) -> (b: bool)
    ensures
        b == holds_system(disk_name@, mounts@),
{
    let disk = chars_of(disk_name);
    let dev_prefix = ['/', 'd', 'e', 'v', '/'];
    proof {
        reveal_strlit("/dev/");
        assert(dev_prefix@ =~= "/dev/"@);
    }
    let mut i: usize = 0;
    while i < mounts.len()
        invariant
            i <= mounts@.len(),
            disk@ == disk_name@,
            dev_prefix@ == "/dev/"@,
            forall|k: int|
                0 <= k < i ==> !(starts_with(#[trigger] mounts@[k].0@, "/dev/"@)
                    && is_partition_of(mounts@[k].0@.skip(5), disk_name@)
                    && is_system_mount_point(mounts@[k].1@)),
        decreases mounts.len() - i,
    {
        let src = chars_of(mounts[i].0.as_str());
        if starts_with_chars(src.as_slice(), dev_prefix.as_slice()) {
            let mut dev: Vec<char> = Vec::new();
            let mut k: usize = 5;
            while k < src.len()
                invariant
                    5 <= k <= src@.len(),
                    dev@ == src@.subrange(5, k as int),
                decreases src.len() - k,
            {
                dev.push(src[k]);
                k = k + 1;
                assert(dev@ =~= src@.subrange(5, k as int));
            }
            assert(dev@ =~= src@.skip(5));
            let mp = chars_of(mounts[i].1.as_str());
            if partition_belongs(dev.as_slice(), disk.as_slice()) && system_mount_point(
                mp.as_slice(),
            ) {
                return true;
            }
        }
        i = i + 1;
    }
    false
}

/// The (source device, mount point) pairs of the mount table `text` (the
/// contents of `/proc/mounts`).
pub fn mounts_from_text(text: &str) -> (r: Vec<(String, String)>)
    ensures
        pair_views(r@) == mount_table(text@),
{
    let chars = chars_of(text);
    let lines = split_chars(chars.as_slice(), '\n');
    let ghost f = |line: Seq<char>| mount_line(line);
    let ghost all = split(text@, '\n');
    let mut out: Vec<(String, String)> = Vec::new();
    let mut i: usize = 0;
    while i < lines.len()
        invariant
            f == (|line: Seq<char>| mount_line(line)),
            all == split(text@, '\n'),
            lines@.len() == all.len(),
            forall|j: int| 0 <= j < lines@.len() ==> #[trigger] lines@[j]@ == all[j],
            i <= lines@.len(),
            pair_views(out@) == all.take(i as int).filter_map(f),
        decreases lines.len() - i,
    {
        proof {
            all.lemma_filter_map_take_succ(f, i as int);
        }
        let w = words_of(lines[i].as_slice());
        if w.len() >= 2 {
            let ghost before = out@;
            let pair = (string_of(w[0].as_slice()), string_of(w[1].as_slice()));
            out.push(pair);
            assert(pair_views(out@) =~= pair_views(before) + seq![(pair.0@, pair.1@)]);
        }
        i = i + 1;
    }
    assert(all.take(all.len() as int) =~= all);
    out
}

/// What a sysfs attribute file holds (see `attribute_text`).
pub fn read_str(content: &Option<String>) -> (r: Option<String>)
    ensures
        match r {
            Some(s) => attribute_text(*content) == Some(s@),
            None => attribute_text(*content) is None,
        },
{
    match content {
        Some(c) => {
            let t = crate::text::trim_str(c.as_str());
            if t.unicode_len() > 0 {
                Some(t)
            } else {
                None
            }
        },
        None => None,
    }
}

/// A numeric sysfs attribute (see `attribute_number`).
pub fn read_u64(content: &Option<String>) -> (r: Option<u64>)
    ensures
        r == attribute_number(*content),
{
    match read_str(content) {
        Some(t) => {
            let cs = chars_of(t.as_str());
            let v = parse_unsigned_chars(cs.as_slice(), 18446744073709551615);
            assert(u64::MAX as nat == 18446744073709551615);
            v
        },
        None => None,
    }
}

/// Whether `name` is a virtual block device (see `is_virtual_device`).
fn virtual_device(name: &[char]) -> (b: bool)
    ensures
        b == is_virtual_device(name@),
{
    let loop_ = ['l', 'o', 'o', 'p'];
    let ram = ['r', 'a', 'm'];
    let zram = ['z', 'r', 'a', 'm'];
    let sr = ['s', 'r'];
    let dm = ['d', 'm', '-'];
    let md = ['m', 'd'];
    let fd = ['f', 'd'];
    let nbd = ['n', 'b', 'd'];
    proof {
        reveal_strlit("loop");
        reveal_strlit("ram");
        reveal_strlit("zram");
        reveal_strlit("sr");
        reveal_strlit("dm-");
        reveal_strlit("md");
        reveal_strlit("fd");
        reveal_strlit("nbd");
        assert(loop_@ =~= "loop"@);
        assert(ram@ =~= "ram"@);
        assert(zram@ =~= "zram"@);
        assert(sr@ =~= "sr"@);
        assert(dm@ =~= "dm-"@);
        assert(md@ =~= "md"@);
        assert(fd@ =~= "fd"@);
        assert(nbd@ =~= "nbd"@);
    }
    starts_with_chars(name, loop_.as_slice()) || starts_with_chars(name, ram.as_slice())
        || starts_with_chars(name, zram.as_slice()) || starts_with_chars(name, sr.as_slice())
        || starts_with_chars(name, dm.as_slice()) || starts_with_chars(name, md.as_slice())
        || starts_with_chars(name, fd.as_slice()) || starts_with_chars(name, nbd.as_slice())
}

/// The disk an entry of `/sys/block` describes, if any (see `entry_disk`).
/// The capacity in bytes must fit in a `u64`.
pub fn disk_from_entry(entry: &SysBlockEntry, mounts: &[(String, String)]) -> (r: Option<Disk>)
    requires
        entry_size(*entry) <= u64::MAX,
    ensures
        match r {
            Some(d) => entry_disk(*entry, mounts@) == Some(d@),
            None => entry_disk(*entry, mounts@) is None,
        },
{
    let name = chars_of(entry.name.as_str());
    let sectors = match read_u64(&entry.size) {
        Some(v) => v,
        None => 0,
    };
    let size = sectors * 512;
    if virtual_device(name.as_slice()) || size == 0 {
        return None;
    }
    let on_usb = match &entry.canonical_path {
        Some(p) => {
            let pc = chars_of(p.as_str());
            let usb = ['/', 'u', 's', 'b'];
            proof {
                reveal_strlit("/usb");
                assert(usb@ =~= "/usb"@);
            }
            contains_chars(pc.as_slice(), usb.as_slice())
        },
        None => false,
    };
    let removable = match read_u64(&entry.removable) {
        Some(v) => v == 1,
        None => false,
    } || on_usb;
    let rotational = match read_u64(&entry.rotational) {
        Some(v) => v == 1,
        None => true,
    };
    let model = match read_str(&entry.model) {
        Some(m) => m,
        None => match read_str(&entry.device_name) {
            Some(m) => m,
            None => String::new(),
        },
    };
    let nvme = ['n', 'v', 'm', 'e'];
    proof {
        reveal_strlit("nvme");
        assert(nvme@ =~= "nvme"@);
    }
    let bus = if on_usb {
        String::from_str("USB")
    } else if starts_with_chars(name.as_slice(), nvme.as_slice()) {
        String::from_str("NVMe")
    } else if removable {
        String::from_str("USB")
    } else if rotational {
        String::from_str("SATA (HDD)")
    } else {
        String::from_str("SATA")
    };
    let system = disk_holds_system(entry.name.as_str(), mounts);
    let mut raw_path = String::from_str("/dev/");
    push_str(&mut raw_path, entry.name.as_str());
    Some(
        Disk {
            id: string_of(name.as_slice()),
            raw_path,
            model,
            size,
            bus,
            removable,
            internal: !removable,
            system,
        },
    )
}

/// Inserts `d` into `list`, which is sorted by id, after every disk whose id
/// does not sort after `d`'s.
fn insert_sorted(list: &mut Vec<Disk>, d: Disk)
    requires
        sorted_by_id(disk_views(old(list)@)),
    ensures
        sorted_by_id(disk_views(final(list)@)),
        disk_views(final(list)@).to_multiset() == disk_views(old(list)@).to_multiset().insert(d@),
        forall|k: Seq<char>|
            #[trigger] with_id(disk_views(final(list)@), k) == with_id(disk_views(old(list)@), k)
                + (if d.id@ == k {
                seq![d@]
            } else {
                Seq::<DiskView>::empty()
            }),
{
    let ghost old_views = disk_views(list@);
    let did = chars_of(d.id.as_str());
    let mut p: usize = 0;
    let mut found = false;
    while !found && p < list.len()
        invariant
            p <= list@.len(),
            list@ == old(list)@,
            old_views == disk_views(list@),
            did@ == d.id@,
            forall|k: int| 0 <= k < p ==> !text_less(d.id@, #[trigger] list@[k].id@),
            found ==> p < list@.len() && text_less(d.id@, list@[p as int].id@),
        decreases list.len() - p + (if found {
            0int
        } else {
            1int
        }),
    {
        let other = chars_of(list[p].id.as_str());
        if id_less(did.as_slice(), other.as_slice()) {
            found = true;
        } else {
            p = p + 1;
        }
    }
    let ghost dv = d@;
    list.insert(p, d);
    let ghost new_views = disk_views(list@);
    assert(new_views =~= old_views.insert(p as int, dv));
    proof {
        assert forall|i: int, j: int| 0 <= i < j < new_views.len() implies !text_less(
            new_views[j].id,
            new_views[i].id,
        ) by {
            if i < p && j == p {
                assert(new_views[i] == old_views[i]);
            } else if i == p && j > p {
                assert(new_views[j] == old_views[j - 1]);
                assert(found);
                assert(text_less(dv.id, old_views[p as int].id));
                if j - 1 == p {
                    lemma_text_less_asymmetric(dv.id, old_views[p as int].id);
                } else {
                    // the disk that stopped the search sorts after `d`, and
                    // nothing after it sorts before it.
                    assert(!text_less(old_views[j - 1].id, old_views[p as int].id));
                    if text_less(new_views[j].id, dv.id) {
                        lemma_text_less_transitive(new_views[j].id, dv.id, old_views[p as int].id);
                    }
                }
            } else if i < p && j > p {
                assert(new_views[i] == old_views[i]);
                assert(new_views[j] == old_views[j - 1]);
            } else if j < p {
                assert(new_views[i] == old_views[i]);
                assert(new_views[j] == old_views[j]);
            } else {
                assert(new_views[i] == old_views[i - 1]);
                assert(new_views[j] == old_views[j - 1]);
            }
        }
        assert(new_views.remove(p as int) =~= old_views);
        new_views.to_multiset_ensures();
        assert(new_views.to_multiset().remove(dv) =~= old_views.to_multiset());
        assert(new_views.to_multiset().count(dv) > 0) by {
            assert(new_views[p as int] == dv);
            assert(new_views.contains(dv));
        }
        assert(new_views.to_multiset() =~= old_views.to_multiset().insert(dv));
        lemma_with_id_insert(old_views, p as int, dv);
    }
}

/// Inserting `dv` before the first disk that sorts after it (or at the end)
/// puts it behind every disk with the same id.
proof fn lemma_with_id_insert(old: Seq<DiskView>, p: int, dv: DiskView)
    requires
        sorted_by_id(old),
        0 <= p <= old.len(),
        p < old.len() ==> text_less(dv.id, old[p].id),
    ensures
        forall|k: Seq<char>|
            #[trigger] with_id(old.insert(p, dv), k) == with_id(old, k) + (if dv.id == k {
                seq![dv]
            } else {
                Seq::<DiskView>::empty()
            }),
{
    assert forall|k: Seq<char>|
        #[trigger] with_id(old.insert(p, dv), k) == with_id(old, k) + (if dv.id == k {
            seq![dv]
        } else {
            Seq::<DiskView>::empty()
        }) by {
        let pred = |v: DiskView| v.id == k;
        let a = old.take(p);
        let b = old.skip(p);
        assert(old.insert(p, dv) =~= a + seq![dv] + b);
        assert(old =~= a + b);
        Seq::filter_distributes_over_add(a + seq![dv], b, pred);
        Seq::filter_distributes_over_add(a, seq![dv], pred);
        Seq::filter_distributes_over_add(a, b, pred);
        assert(seq![dv] =~= Seq::<DiskView>::empty().push(dv));
        Seq::<DiskView>::empty().lemma_filter_push(dv, pred);
        Seq::<DiskView>::empty().lemma_filter_len(pred);
        assert(Seq::<DiskView>::empty().filter(pred) =~= Seq::<DiskView>::empty());
        if dv.id == k {
            assert forall|j: int| 0 <= j < b.len() implies !pred(#[trigger] b[j]) by {
                assert(b[j] == old[p + j]);
                if old[p + j].id == dv.id {
                    if j == 0 {
                        lemma_text_less_asymmetric(dv.id, old[p].id);
                    } else {
                        assert(!text_less(old[p + j].id, old[p].id));
                    }
                }
            }
            b.lemma_all_neg_filter_empty(pred);
            assert(b.filter(pred) =~= Seq::<DiskView>::empty());
        }
        assert(with_id(old.insert(p, dv), k) == old.insert(p, dv).filter(pred));
        assert(with_id(old, k) == old.filter(pred));
    }
}

/// The whole disks described by the entries of `/sys/block`, sorted by id
/// (disks with the same id keep the order of their entries), given the
/// system's mount table. The capacity of every entry must fit in
/// a `u64`.
pub fn list_disks(entries: &Vec<SysBlockEntry>, mounts: &[(String, String)]) -> (r: Vec<Disk>)
    requires
        forall|i: int| 0 <= i < entries@.len() ==> entry_size(#[trigger] entries@[i]) <= u64::MAX,
    ensures
        sorted_by_id(disk_views(r@)),
        disk_views(r@).to_multiset() == entries@.filter_map(
            |e: SysBlockEntry| entry_disk(e, mounts@),
        ).to_multiset(),
        forall|k: Seq<char>|
            #[trigger] with_id(disk_views(r@), k) == with_id(
                entries@.filter_map(|e: SysBlockEntry| entry_disk(e, mounts@)),
                k,
            ),
{
    let ghost f = |e: SysBlockEntry| entry_disk(e, mounts@);
    let mut out: Vec<Disk> = Vec::new();
    let mut i: usize = 0;
    assert(entries@.take(0) =~= Seq::<SysBlockEntry>::empty());
    assert(disk_views(out@) =~= Seq::<DiskView>::empty());
    while i < entries.len()
        invariant
            f == (|e: SysBlockEntry| entry_disk(e, mounts@)),
            i <= entries@.len(),
            forall|k: int| 0 <= k < entries@.len() ==> entry_size(#[trigger] entries@[k]) <= u64::MAX,
            sorted_by_id(disk_views(out@)),
            disk_views(out@).to_multiset() == entries@.take(i as int).filter_map(f).to_multiset(),
            forall|k: Seq<char>|
                #[trigger] with_id(disk_views(out@), k) == with_id(
                    entries@.take(i as int).filter_map(f),
                    k,
                ),
        decreases entries.len() - i,
    {
        proof {
            entries@.lemma_filter_map_take_succ(f, i as int);
        }
        match disk_from_entry(&entries[i], mounts) {
            Some(d) => {
                let ghost dv = d@;
                insert_sorted(&mut out, d);
                proof {
                    let prev = entries@.take(i as int).filter_map(f);
                    prev.to_multiset_ensures();
                    assert(prev + seq![dv] =~= prev.push(dv));
                    assert forall|k: Seq<char>|
                        #[trigger] with_id(disk_views(out@), k) == with_id(prev.push(dv), k) by {
                        prev.lemma_filter_push(dv, |v: DiskView| v.id == k);
                        if dv.id == k {
                            assert(with_id(prev, k) + seq![dv] =~= with_id(prev, k).push(dv));
                        } else {
                            assert(with_id(prev, k) + Seq::<DiskView>::empty() =~= with_id(
                                prev,
                                k,
                            ));
                        }
                    }
                }
            },
            None => {},
        }
        i = i + 1;
    }
    assert(entries@.take(entries@.len() as int) =~= entries@);
    out
}

/// The error for a `/sys/block` that could not be read.
pub fn enumerate_failed(failure: &IoFailure) -> (e: Error)
    ensures
        e matches Error::Enumerate(m) && m@ == "reading /sys/block: "@ + failure.message@,
{
    let mut m = String::from_str("reading /sys/block: ");
    push_str(&mut m, failure.message.as_str());
    Error::Enumerate(m)
}

/// The error for a device that could not be opened: `Busy` when the OS
/// reports EBUSY (16), otherwise the I/O failure with the path as context.
pub fn map_open_err(path: &str, failure: IoFailure) -> (e: Error)
    ensures
        failure.raw_os_error == Some(16i32) ==> (e matches Error::Busy(m) && m@ == path@
            + " is in use. Unmount every partition on it and close any program using it, then try again."@),
        failure.raw_os_error != Some(16i32) ==> crate::flash::is_io_error(
            e,
            "opening "@ + path@,
            failure,
        ),
{
    if failure.raw_os_error == Some(16) {
        let mut m = String::from_str(path);
        push_str(
            &mut m,
            " is in use. Unmount every partition on it and close any program using it, then try again.",
        );
        Error::Busy(m)
    } else {
        let mut ctx = String::from_str("opening ");
        push_str(&mut ctx, path);
        Error::io(ctx.as_str(), failure)
    }
}


/// Loop, RAM, compressed-RAM, optical, device-mapper, software-RAID, floppy
/// and network block devices are never listed: an entry whose name starts
/// with `loop`, `ram`, `zram`, `sr`, `dm-`, `md`, `fd` or `nbd` describes no
/// disk, whatever its attributes and the mount table.
pub proof fn lemma_virtual_devices_are_skipped(e: SysBlockEntry, mounts: Seq<(String, String)>)
    requires
        e.name@.len() >= 4 && e.name@.take(4) == "loop"@ || e.name@.len() >= 3 && e.name@.take(3)
            == "ram"@ || e.name@.len() >= 4 && e.name@.take(4) == "zram"@ || e.name@.len() >= 2
            && e.name@.take(2) == "sr"@ || e.name@.len() >= 3 && e.name@.take(3) == "dm-"@
            || e.name@.len() >= 2 && e.name@.take(2) == "md"@ || e.name@.len() >= 2 && e.name@.take(
            2,
        ) == "fd"@ || e.name@.len() >= 3 && e.name@.take(3) == "nbd"@,
    ensures
        entry_disk(e, mounts) is None,
{
    reveal_strlit("loop");
    reveal_strlit("ram");
    reveal_strlit("zram");
    reveal_strlit("sr");
    reveal_strlit("dm-");
    reveal_strlit("md");
    reveal_strlit("fd");
    reveal_strlit("nbd");
    let n = e.name@;
    if n.len() >= 4 && n.take(4) == "loop"@ {
        assert(starts_with(n, "loop"@));
    } else if n.len() >= 3 && n.take(3) == "ram"@ {
        assert(starts_with(n, "ram"@));
    } else if n.len() >= 4 && n.take(4) == "zram"@ {
        assert(starts_with(n, "zram"@));
    } else if n.len() >= 2 && n.take(2) == "sr"@ {
        assert(starts_with(n, "sr"@));
    } else if n.len() >= 3 && n.take(3) == "dm-"@ {
        assert(starts_with(n, "dm-"@));
    } else if n.len() >= 2 && n.take(2) == "md"@ {
        assert(starts_with(n, "md"@));
    } else if n.len() >= 2 && n.take(2) == "fd"@ {
        assert(starts_with(n, "fd"@));
    } else {
        assert(starts_with(n, "nbd"@));
    }
}

/// A listed disk is the entry it comes from: its id is the entry's name, its
/// raw path `/dev/` followed by that name, its capacity the sector count
/// times 512 (never 0), it is internal exactly when it is not removable, and
/// a system disk exactly when one of its partitions holds a system mount. The
/// capacity must fit in a `u64`, as `list_disks` asks.
pub proof fn lemma_entry_disk_fields(e: SysBlockEntry, mounts: Seq<(String, String)>)
    requires
        entry_size(e) <= u64::MAX,
    ensures
        entry_disk(e, mounts) matches Some(d) ==> {
            &&& d.id == e.name@
            &&& d.raw_path == "/dev/"@ + e.name@
            &&& d.size > 0
            &&& (attribute_number(e.size) matches Some(sectors) && d.size == sectors * 512)
            &&& d.internal == !d.removable
            &&& d.system == holds_system(e.name@, mounts)
        },
{
}


/// Partitions follow the kernel's naming: a partition of a disk whose name
/// ends in a digit is named with `p` before its number, so the disk's name
/// followed directly by a digit is another disk, not one of its partitions;
/// a disk whose name ends in a letter takes the number directly. A device is
/// never a partition of a disk whose name is not a prefix of its own.
pub proof fn lemma_partition_naming(dev: Seq<char>, disk: Seq<char>)
    ensures
        disk.len() > 0 && '0' <= disk.last() <= '9' && dev.len() > disk.len() && dev.take(
            disk.len() as int,
        ) == disk && '0' <= dev[disk.len() as int] <= '9' ==> !is_partition_of(dev, disk),
        disk.len() > 0 && !('0' <= disk.last() <= '9') && dev.len() > disk.len() && dev.take(
            disk.len() as int,
        ) == disk && '0' <= dev[disk.len() as int] <= '9' ==> is_partition_of(dev, disk),
        dev.len() > disk.len() && dev.take(disk.len() as int) == disk && dev[disk.len() as int]
            == 'p' ==> is_partition_of(dev, disk),
        !(dev.len() >= disk.len() && dev.take(disk.len() as int) == disk) ==> !is_partition_of(
            dev,
            disk,
        ),
{
    if dev.len() >= disk.len() && dev.take(disk.len() as int) == disk && dev.len() == disk.len() {
        assert(dev =~= disk);
    }
    if dev == disk {
        assert(dev.take(disk.len() as int) =~= disk);
    }
}

/// How sysfs attributes become the disk's flags and bus: it is removable
/// exactly when `removable` reads 1 or it sits on USB; a disk on USB has bus
/// `USB`, one named `nvme...` elsewhere has bus `NVMe`.
pub proof fn lemma_entry_disk_bus(e: SysBlockEntry, mounts: Seq<(String, String)>)
    ensures
        entry_disk(e, mounts) matches Some(d) ==> {
            &&& d.removable == (attribute_number(e.removable) == Some(1u64) || (e.canonical_path matches Some(p)
                && contains_text(p@, "/usb"@)))
            &&& (e.canonical_path matches Some(p) && contains_text(p@, "/usb"@)) ==> d.bus == "USB"@
            &&& !(e.canonical_path matches Some(p) && contains_text(p@, "/usb"@))
                && e.name@.len() >= 4 && e.name@.take(4) == "nvme"@ ==> d.bus == "NVMe"@
        },
{
    reveal_strlit("nvme");
    if e.name@.len() >= 4 && e.name@.take(4) == "nvme"@ {
        assert(starts_with(e.name@, "nvme"@));
    }
}

} // verus!
