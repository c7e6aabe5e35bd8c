//! The block-device entity: a typed handle on one directory under the block
//! class root, with verified attribute readers, hierarchy derivation and
//! device-type classification over a captured [`SysFs`] tree.

use vstd::prelude::*;
use crate::class::{SysClass, all_instances, read_attr, spec_root_of};
use crate::error::Error;
use crate::fs::{SysFs, dir_names_ok, lemma_wf_dir_names};
use crate::parse::{parse_u64, parse_u8, spec_parse_u64, spec_parse_u8};
use crate::scheduler::{
    BlockScheduler, spec_active_index, spec_scheduler_names, tokens_well_bracketed,
};
use crate::scsi::{ScsiDeviceType, spec_from_byte};
use crate::text::{
    has_prefix, is_ascii_alpha, is_digit, lex_le, lemma_lex_le_total, lemma_lex_le_transitive,
    spec_has_prefix, spec_split_ws, spec_trim_end, str_eq, str_le, trim_end,
};

verus! {

/// The technology behind a block device, derived from its name and
/// attributes; never stored, recomputed on each call.
#[derive(Clone, Copy, Debug, Default, Hash, PartialEq, Eq, Structural)]
pub enum BlockDeviceType {
    DeviceMapper,
    StorageDevice,
    Nvme,
    Loop,
    MultipleDevice,
    Partition,
    RamDisk,
    CompressedRamDisk,
    Scsi(ScsiDeviceType),
    #[default]
    Unknown,
}

/// A block device: a handle on its directory under the class root.
#[derive(Debug)]
pub struct Block {
    path: String,
}

/// The directory all instances of the block class live under.
pub open spec fn spec_class_root() -> Seq<char> {
    spec_root_of(Block::spec_class_name())
}

/// The directory of the instance named `name`.
pub open spec fn spec_instance_path(name: Seq<char>) -> Seq<char> {
    spec_class_root() + "/"@ + name
}

/// The file or subdirectory `rel` under the instance directory `path`.
pub open spec fn spec_attr_path(path: Seq<char>, rel: Seq<char>) -> Seq<char> {
    path + "/"@ + rel
}

/// What reading attribute `rel` of the instance at `path` yields.
pub open spec fn spec_read_attr(fs: &SysFs, path: Seq<char>, rel: Seq<char>) -> Result<
    Seq<char>,
    Error,
> {
    fs.spec_read(spec_attr_path(path, rel))
}

/// What reading attribute `rel` as a 64-bit unsigned decimal yields: the
/// parsed value of the trimmed text, the read's own error, or `Parse`.
pub open spec fn spec_attr_u64(fs: &SysFs, path: Seq<char>, rel: Seq<char>) -> Result<u64, Error> {
    match spec_read_attr(fs, path, rel) {
        Ok(t) => match spec_parse_u64(spec_trim_end(t)) {
            Some(v) => Ok(v),
            None => Err(Error::Parse),
        },
        Err(e) => Err(e),
    }
}

/// What reading attribute `rel` as an unsigned decimal byte yields.
pub open spec fn spec_attr_u8(fs: &SysFs, path: Seq<char>, rel: Seq<char>) -> Result<u8, Error> {
    match spec_read_attr(fs, path, rel) {
        Ok(t) => match spec_parse_u8(spec_trim_end(t)) {
            Some(v) => Ok(v),
            None => Err(Error::Parse),
        },
        Err(e) => Err(e),
    }
}

/// What the `partition` attribute of the instance at `path` holds.
pub open spec fn spec_partition(fs: &SysFs, path: Seq<char>) -> Result<u8, Error> {
    spec_attr_u8(fs, path, "partition"@)
}

/// The instance's name: the characters of its path after the last separator.
pub open spec fn spec_name_of(path: Seq<char>) -> Seq<char>
    decreases path.len(),
{
    if path.len() == 0 {
        Seq::<char>::empty()
    } else if path.last() == '/' {
        Seq::<char>::empty()
    } else {
        spec_name_of(path.drop_last()).push(path.last())
    }
}

/// The name is the suffix that follows the last separator.
proof fn lemma_name_of_suffix(s: Seq<char>, st: int)
    requires
        0 <= st <= s.len(),
        forall|j: int| st <= j < s.len() ==> #[trigger] s[j] != '/',
        st > 0 ==> s[st - 1] == '/',
    ensures
        spec_name_of(s) == s.skip(st),
    decreases s.len() - st,
{
    if st == s.len() {
        assert(s.skip(st) =~= Seq::<char>::empty());
    } else {
        lemma_name_of_suffix(s.drop_last(), st);
        assert(s.last() != '/');
        assert(s.drop_last().skip(st) =~= s.skip(st).drop_last());
        assert(s.skip(st) =~= s.skip(st).drop_last().push(s.last()));
    }
}

/// Whether `name` starts with `p` followed by a decimal digit.
pub open spec fn spec_prefix_digit(name: Seq<char>, p: Seq<char>) -> bool {
    spec_has_prefix(name, p) && name.len() > p.len() && is_digit(name[p.len() as int])
}

/// Whether `name` starts with `p` followed by an ASCII letter.
pub open spec fn spec_prefix_alpha(name: Seq<char>, p: Seq<char>) -> bool {
    spec_has_prefix(name, p) && name.len() > p.len() && is_ascii_alpha(name[p.len() as int])
}

/// Whether `name` starts with `p` followed by a decimal digit.
fn prefix_digit(name: &str, p: &str) -> (r: bool)
    ensures
        r == spec_prefix_digit(name@, p@),
{
    if !has_prefix(name, p) {
        return false;
    }
    let k = p.unicode_len();
    let n = name.unicode_len();
    if n <= k {
        return false;
    }
    let c = name.get_char(k);
    c >= '0' && c <= '9'
}

/// Whether `name` starts with `p` followed by an ASCII letter.
fn prefix_alpha(name: &str, p: &str) -> (r: bool)
    ensures
        r == spec_prefix_alpha(name@, p@),
{
    if !has_prefix(name, p) {
        return false;
    }
    let k = p.unicode_len();
    let n = name.unicode_len();
    if n <= k {
        return false;
    }
    let c = name.get_char(k);
    (c >= 'a' && c <= 'z') || (c >= 'A' && c <= 'Z')
}

/// The technology behind the instance at `path`, by the first matching rule:
/// a parsable `partition` attribute, then the name patterns `dm-`, `loop`,
/// `md`, `nvme`, `ram` and `zram` (each followed by a digit), then a decodable
/// `device/type` attribute, then the name pattern `sd` followed by a letter.
/// The order is load-bearing: a partition of an NVMe disk is a `Partition`,
/// not `Nvme`.
pub open spec fn spec_device_type(fs: &SysFs, path: Seq<char>) -> BlockDeviceType {
    let name = spec_name_of(path);
    if spec_partition(fs, path) is Ok {
        BlockDeviceType::Partition
    } else if spec_prefix_digit(name, "dm-"@) {
        BlockDeviceType::DeviceMapper
    } else if spec_prefix_digit(name, "loop"@) {
        BlockDeviceType::Loop
    } else if spec_prefix_digit(name, "md"@) {
        BlockDeviceType::MultipleDevice
    } else if spec_prefix_digit(name, "nvme"@) {
        BlockDeviceType::Nvme
    } else if spec_prefix_digit(name, "ram"@) {
        BlockDeviceType::RamDisk
    } else if spec_prefix_digit(name, "zram"@) {
        BlockDeviceType::CompressedRamDisk
    } else if spec_scsi_type(fs, path) is Ok {
        BlockDeviceType::Scsi(spec_scsi_type(fs, path)->Ok_0)
    } else if spec_prefix_alpha(name, "sd"@) {
        BlockDeviceType::StorageDevice
    } else {
        BlockDeviceType::Unknown
    }
}

/// The classification rules run in order and the first match wins: an
/// instance with a parsable `partition` attribute classifies as `Partition`,
/// whatever its name or `device/type` attribute would also match.
pub proof fn lemma_partition_rule_wins(fs: &SysFs, path: Seq<char>)
    requires
        spec_partition(fs, path) is Ok,
    ensures
        spec_device_type(fs, path) == BlockDeviceType::Partition,
{
}

/// Whether the partition-suffix offset stays inside the instance's path, so
/// that deriving the parent path cannot underflow.  Deriving a parent is
/// undefined outside this bound, and `parent_device` demands it.
pub open spec fn parent_offset_ok(fs: &SysFs, path: Seq<char>) -> bool {
    spec_partition(fs, path) matches Ok(p) ==> path.len() >= p / 10 + 1
}

/// The derived parent path of the instance at `path`: when its `partition`
/// attribute parses as `p`, the path shortened by one more character than
/// `p` has tens — an offset computation over the path, exact for standard
/// partition names, not a parse of the name.  No parent is derived where
/// `partition` is absent or unparsable.
pub open spec fn spec_parent_path(fs: &SysFs, path: Seq<char>) -> Option<Seq<char>> {
    match spec_partition(fs, path) {
        Ok(p) => if path.len() >= p / 10 + 1 {
            Some(path.take(path.len() - p / 10 - 1))
        } else {
            None
        },
        Err(_) => None,
    }
}

/// Whether every instance among the listed `names` keeps its partition-suffix
/// offset inside its path (see [`parent_offset_ok`]).  `children` derives
/// every instance's parent and so demands this of all of them.
pub open spec fn all_offsets_ok(fs: &SysFs, names: Seq<Seq<char>>) -> bool {
    forall|j: int|
        0 <= j < names.len() ==> parent_offset_ok(fs, spec_instance_path(#[trigger] names[j]))
}

/// Whether `q` is the path of a listed instance whose derived parent path is
/// `parent`.
pub open spec fn is_child_path(
    fs: &SysFs,
    names: Seq<Seq<char>>,
    parent: Seq<char>,
    q: Seq<char>,
) -> bool {
    exists|j: int|
        0 <= j < names.len() && q == spec_instance_path(#[trigger] names[j]) && spec_parent_path(
            fs,
            q,
        ) == Some(parent)
}

/// Whether the blocks stand in ascending lexicographic path order.
pub open spec fn paths_sorted(s: Seq<Block>) -> bool {
    forall|i1: int, i2: int|
        0 <= i1 < i2 < s.len() ==> lex_le(
            (#[trigger] s[i1]).spec_path(),
            (#[trigger] s[i2]).spec_path(),
        )
}

/// Whether no two blocks share a path.
pub open spec fn paths_distinct(s: Seq<Block>) -> bool {
    forall|i1: int, i2: int|
        0 <= i1 < i2 < s.len() ==> (#[trigger] s[i1]).spec_path() != (#[trigger] s[i2]).spec_path()
}

/// Whether some block in `s` has the path `q`.
pub open spec fn path_in(s: Seq<Block>, q: Seq<char>) -> bool {
    exists|i: int| 0 <= i < s.len() && (#[trigger] s[i]).spec_path() == q
}

/// Two instance names with the same instance path are the same name.
proof fn lemma_instance_path_injective(n1: Seq<char>, n2: Seq<char>)
    requires
        spec_instance_path(n1) == spec_instance_path(n2),
    ensures
        n1 == n2,
{
    let pre = spec_class_root() + "/"@;
    assert(spec_instance_path(n1).len() == pre.len() + n1.len());
    assert(spec_instance_path(n2).len() == pre.len() + n2.len());
    assert(n1.len() == n2.len());
    assert forall|i: int| 0 <= i < n1.len() implies n1[i] == n2[i] by {
        assert(n1[i] == (pre + n1)[pre.len() + i]);
        assert(n2[i] == (pre + n2)[pre.len() + i]);
    }
    assert(n1 =~= n2);
}

/// Places `b` at its sorted position among blocks with pairwise distinct
/// paths, none of them sharing a path with `b`.
fn insert_sorted(v: &mut Vec<Block>, b: Block)
    requires
        paths_sorted(old(v)@),
        paths_distinct(old(v)@),
        !path_in(old(v)@, b.spec_path()),
    ensures
        final(v)@.len() == old(v)@.len() + 1,
        paths_sorted(final(v)@),
        paths_distinct(final(v)@),
        path_in(final(v)@, b.spec_path()),
        forall|q: Seq<char>| #[trigger] path_in(old(v)@, q) ==> path_in(final(v)@, q),
        forall|i: int|
            0 <= i < final(v)@.len() ==> (#[trigger] final(v)@[i]).spec_path() == b.spec_path()
                || path_in(old(v)@, final(v)@[i].spec_path()),
{
    let ghost orig = v@;
    let ghost bp = b.spec_path();
    let mut k: usize = 0;
    loop
        invariant
            v@ == orig,
            bp == b.spec_path(),
            0 <= k <= v@.len(),
            forall|m: int| 0 <= m < k ==> lex_le((#[trigger] v@[m]).spec_path(), bp),
        ensures
            v@ == orig,
            0 <= k <= v@.len(),
            forall|m: int| 0 <= m < k ==> lex_le((#[trigger] v@[m]).spec_path(), bp),
            k < v@.len() ==> lex_le(bp, v@[k as int].spec_path()),
        decreases v@.len() - k,
    {
        if k == v.len() {
            break;
        }
        if str_le(b.path.as_str(), v[k].path.as_str()) {
            break;
        }
        proof {
            lemma_lex_le_total(bp, v@[k as int].spec_path());
        }
        k = k + 1;
    }
    proof {
        orig.insert_ensures(k as int, b);
    }
    v.insert(k, b);
    proof {
        assert(v@[k as int].spec_path() == bp);
        assert forall|i1: int, i2: int| 0 <= i1 < i2 < v@.len() implies lex_le(
            (#[trigger] v@[i1]).spec_path(),
            (#[trigger] v@[i2]).spec_path(),
        ) by {
            if i1 < k && i2 < k {
                assert(v@[i1] == orig[i1] && v@[i2] == orig[i2]);
            } else if i1 < k && i2 == k {
                assert(v@[i1] == orig[i1]);
            } else if i1 < k && i2 > k {
                assert(v@[i1] == orig[i1] && v@[i2] == orig[i2 - 1]);
            } else if i1 == k {
                assert(v@[i2] == orig[i2 - 1] && i2 - 1 >= k);
                if i2 - 1 > k {
                    lemma_lex_le_transitive(
                        bp,
                        orig[k as int].spec_path(),
                        orig[i2 - 1].spec_path(),
                    );
                }
            } else {
                assert(v@[i1] == orig[i1 - 1] && v@[i2] == orig[i2 - 1]);
            }
        }
        assert forall|i1: int, i2: int| 0 <= i1 < i2 < v@.len() implies (#[trigger] v@[i1]).spec_path()
            != (#[trigger] v@[i2]).spec_path() by {
            if i1 < k && i2 < k {
                assert(v@[i1] == orig[i1] && v@[i2] == orig[i2]);
            } else if i1 < k && i2 == k {
                assert(v@[i1] == orig[i1]);
                assert(path_in(orig, orig[i1].spec_path()));
            } else if i1 < k && i2 > k {
                assert(v@[i1] == orig[i1] && v@[i2] == orig[i2 - 1]);
            } else if i1 == k {
                assert(v@[i2] == orig[i2 - 1]);
                assert(path_in(orig, orig[i2 - 1].spec_path()));
            } else {
                assert(v@[i1] == orig[i1 - 1] && v@[i2] == orig[i2 - 1]);
            }
        }
        assert forall|q: Seq<char>| #[trigger] path_in(orig, q) implies path_in(v@, q) by {
            let i = choose|i: int| 0 <= i < orig.len() && (#[trigger] orig[i]).spec_path() == q;
            if i < k {
                assert(v@[i].spec_path() == q);
            } else {
                assert(v@[i + 1].spec_path() == q);
            }
        }
        assert forall|i: int| 0 <= i < v@.len() implies (#[trigger] v@[i]).spec_path() == bp
            || path_in(orig, v@[i].spec_path()) by {
            if i < k {
                assert(v@[i] == orig[i]);
                assert(path_in(orig, orig[i].spec_path()));
            } else if i > k {
                assert(v@[i] == orig[i - 1]);
                assert(path_in(orig, orig[i - 1].spec_path()));
            }
        }
    }
}

/// What decoding the `device/type` attribute of the instance at `path`
/// yields.
pub open spec fn spec_scsi_type(fs: &SysFs, path: Seq<char>) -> Result<ScsiDeviceType, Error> {
    match spec_read_attr(fs, path, "device/type"@) {
        Ok(t) => match spec_parse_u8(spec_trim_end(t)) {
            Some(b) => Ok(spec_from_byte(b)),
            None => Err(Error::Parse),
        },
        Err(e) => Err(e),
    }
}

impl SysClass for Block {
    /// The class subdirectory all block devices appear under.
    open spec fn spec_class_name() -> Seq<char> {
        "block"@
    }

    /// The instance's backing directory path.
    closed spec fn spec_path(&self) -> Seq<char> {
        self.path@
    }

    fn class() -> (r: &'static str) {
        "block"
    }

    fn from_path_unchecked(path: String) -> (r: Block) {
        Block { path }
    }

    fn path(&self) -> (r: &str) {
        self.path.as_str()
    }
}

impl Block {
    /// Enumerates every instance of the block class, one per entry of the
    /// class root, in listing order; fails with the listing's error kind when
    /// the class root itself cannot be listed.
    pub fn all(fs: &SysFs) -> (r: Result<Vec<Block>, Error>)
        ensures
            match fs.spec_list(spec_class_root()) {
                Ok(names) => r matches Ok(v) && v@.len() == names.len() && (forall|i: int|
                    0 <= i < names.len() ==> (#[trigger] v@[i]).spec_path() == spec_instance_path(
                        names[i],
                    )),
                Err(e) => r == Err::<Vec<Block>, Error>(e),
            },
    {
        all_instances::<Block>(fs)
    }

    /// Looks up the single instance named `name`, failing with `NotFound`
    /// when nothing exists at its place under the class root.
    pub fn from_name(fs: &SysFs, name: &str) -> (r: Result<Block, Error>)
        ensures
            fs.spec_exists(spec_instance_path(name@)) ==> (r matches Ok(b) && b.spec_path()
                == spec_instance_path(name@)),
            !fs.spec_exists(spec_instance_path(name@)) ==> r == Err::<Block, Error>(
                Error::NotFound,
            ),
    {
        crate::class::from_name::<Block>(fs, name)
    }

    /// Reads the attribute file `rel` under the instance directory, yielding
    /// its raw text or the read's error kind.
    pub fn read_file(&self, fs: &SysFs, rel: &str) -> (r: Result<String, Error>)
        ensures
            match r {
                Ok(t) => spec_read_attr(fs, self.spec_path(), rel@) == Ok::<Seq<char>, Error>(t@),
                Err(e) => spec_read_attr(fs, self.spec_path(), rel@) == Err::<Seq<char>, Error>(e),
            },
    {
        read_attr(self, fs, rel)
    }

    /// Reads attribute `rel` and parses its trimmed text as a 64-bit
    /// unsigned decimal.
    pub fn parse_file_u64(&self, fs: &SysFs, rel: &str) -> (r: Result<u64, Error>)
        ensures
            r == spec_attr_u64(fs, self.spec_path(), rel@),
    {
        match self.read_file(fs, rel) {
            Ok(t) => match parse_u64(trim_end(t.as_str())) {
                Ok(v) => Ok(v),
                Err(_) => Err(Error::Parse),
            },
            Err(e) => Err(e),
        }
    }

    /// Reads attribute `rel` and parses its trimmed text as an unsigned
    /// decimal byte.
    pub fn parse_file_u8(&self, fs: &SysFs, rel: &str) -> (r: Result<u8, Error>)
        ensures
            r == spec_attr_u8(fs, self.spec_path(), rel@),
    {
        match self.read_file(fs, rel) {
            Ok(t) => match parse_u8(trim_end(t.as_str())) {
                Ok(v) => Ok(v),
                Err(_) => Err(Error::Parse),
            },
            Err(e) => Err(e),
        }
    }

    /// The `partition` attribute: the device's partition number on its
    /// parent disk.  Its absence marks a device that is not a partition.
    pub fn partition(&self, fs: &SysFs) -> (r: Result<u8, Error>)
        ensures
            r == spec_partition(fs, self.spec_path()),
    {
        self.parse_file_u8(fs, "partition")
    }

    /// Whether a `device` subdirectory exists under the instance path: true
    /// for devices with an associated physical device node, false for purely
    /// logical ones.
    pub fn has_device(&self, fs: &SysFs) -> (r: bool)
        ensures
            r == fs.spec_exists(spec_attr_path(self.spec_path(), "device"@)),
    {
        let mut p = self.path.clone();
        p.append("/");
        p.append("device");
        fs.path_exists(p.as_str())
    }

    /// Reads and decodes the `device/type` attribute: the SCSI peripheral
    /// device type.
    pub fn device_type_scsi(&self, fs: &SysFs) -> (r: Result<ScsiDeviceType, Error>)
        ensures
            r == spec_scsi_type(fs, self.spec_path()),
    {
        match self.read_file(fs, "device/type") {
            Ok(t) => ScsiDeviceType::from_str(trim_end(t.as_str())),
            Err(e) => Err(e),
        }
    }

    /// Reads and structures the `queue/scheduler` attribute.
    pub fn queue_scheduler(&self, fs: &SysFs) -> (r: Result<BlockScheduler, Error>)
        requires
            match spec_read_attr(fs, self.spec_path(), "queue/scheduler"@) {
                Ok(t) => tokens_well_bracketed(spec_split_ws(t)),
                Err(_) => true,
            },
        ensures
            match spec_read_attr(fs, self.spec_path(), "queue/scheduler"@) {
                Ok(t) => r matches Ok(s) && s.wf() && s.spec_schedulers() == spec_scheduler_names(
                    spec_split_ws(t),
                ) && s.spec_active() == spec_active_index(spec_split_ws(t)),
                Err(e) => r == Err::<BlockScheduler, Error>(e),
            },
    {
        match self.read_file(fs, "queue/scheduler") {
            Ok(t) => Ok(BlockScheduler::parse(t.as_str())),
            Err(e) => Err(e),
        }
    }

    /// The backing devices of a logical device, as full paths under the
    /// `slaves` subdirectory: nothing when no `slaves` subdirectory exists,
    /// otherwise the listing's entries or its error.
    pub fn slaves(&self, fs: &SysFs) -> (r: Option<Result<Vec<String>, Error>>)
        ensures
            ({
                let sp = spec_attr_path(self.spec_path(), "slaves"@);
                &&& !fs.spec_exists(sp) ==> r is None
                &&& fs.spec_exists(sp) ==> match fs.spec_list(sp) {
                    Ok(names) => r matches Some(Ok(v)) && v.deep_view().len() == names.len() && (
                    forall|j: int|
                        0 <= j < names.len() ==> v.deep_view()[j] == spec_attr_path(
                            sp,
                            names[j],
                        )),
                    Err(e) => r == Some(Err::<Vec<String>, Error>(e)),
                }
            }),
    {
        let mut p = self.path.clone();
        p.append("/");
        p.append("slaves");
        if !fs.path_exists(p.as_str()) {
            return None;
        }
        match fs.list_dir(p.as_str()) {
            Ok(names) => {
                let ghost namesd = names.deep_view();
                let mut v: Vec<String> = Vec::new();
                let mut i: usize = 0;
                while i < names.len()
                    invariant
                        0 <= i <= names@.len(),
                        namesd == names.deep_view(),
                        namesd.len() == names@.len(),
                        v.deep_view().len() == i,
                        forall|j: int|
                            0 <= j < i ==> v.deep_view()[j] == spec_attr_path(p@, namesd[j]),
                    decreases names@.len() - i,
                {
                    let mut q = p.clone();
                    q.append("/");
                    q.append(names[i].as_str());
                    let ghost prev = v.deep_view();
                    proof {
                        assert(namesd[i as int] == names@[i as int]@);
                    }
                    v.push(q);
                    proof {
                        assert(v.deep_view() =~= prev.push(spec_attr_path(p@, namesd[i as int])));
                    }
                    i = i + 1;
                }
                Some(Ok(v))
            },
            Err(e) => Some(Err(e)),
        }
    }

    /// The instance's name: its path after the last separator.
    fn file_name(&self) -> (r: &str)
        ensures
            r@ == spec_name_of(self.spec_path()),
    {
        let s = self.path.as_str();
        let n = s.unicode_len();
        let mut st: usize = n;
        loop
            invariant
                0 <= st <= n,
                n == s@.len(),
                forall|j: int| st <= j < n ==> #[trigger] s@[j] != '/',
            ensures
                0 <= st <= n,
                forall|j: int| st <= j < n ==> #[trigger] s@[j] != '/',
                st > 0 ==> s@[st - 1] == '/',
            decreases st,
        {
            if st == 0 {
                break;
            }
            if s.get_char(st - 1) == '/' {
                break;
            }
            st = st - 1;
        }
        proof {
            lemma_name_of_suffix(s@, st as int);
            assert(s@.skip(st as int) =~= s@.subrange(st as int, n as int));
        }
        s.substring_char(st, n)
    }

    /// Classifies the device's underlying technology.  The rules of
    /// [`spec_device_type`] run in order and the first match wins.
    pub fn device_type(&self, fs: &SysFs) -> (r: BlockDeviceType)
        ensures
            r == spec_device_type(fs, self.spec_path()),
    {
        let name = self.file_name();
        if self.partition(fs).is_ok() {
            return BlockDeviceType::Partition;
        }
        if prefix_digit(name, "dm-") {
            return BlockDeviceType::DeviceMapper;
        }
        if prefix_digit(name, "loop") {
            return BlockDeviceType::Loop;
        }
        if prefix_digit(name, "md") {
            return BlockDeviceType::MultipleDevice;
        }
        if prefix_digit(name, "nvme") {
            return BlockDeviceType::Nvme;
        }
        if prefix_digit(name, "ram") {
            return BlockDeviceType::RamDisk;
        }
        if prefix_digit(name, "zram") {
            return BlockDeviceType::CompressedRamDisk;
        }
        match self.device_type_scsi(fs) {
            Ok(t) => {
                return BlockDeviceType::Scsi(t);
            },
            Err(_) => {},
        }
        if prefix_alpha(name, "sd") {
            return BlockDeviceType::StorageDevice;
        }
        BlockDeviceType::Unknown
    }

    /// The whole disk this partition sits on: the instance path shortened by
    /// one more character than the partition number has tens, wrapped
    /// unchecked.  Nothing for devices whose `partition` attribute is absent
    /// or unparsable.
    pub fn parent_device(&self, fs: &SysFs) -> (r: Option<Block>)
        requires
            parent_offset_ok(fs, self.spec_path()),
        ensures
            match r {
                Some(b) => spec_parent_path(fs, self.spec_path()) == Some(b.spec_path()),
                None => spec_parent_path(fs, self.spec_path()) is None,
            },
    {
        match self.partition(fs) {
            Ok(p) => {
                let n = self.path.as_str().unicode_len();
                let off = (p / 10) as usize;
                let pos = n - off - 1;
                let parent = self.path.as_str().substring_char(0, pos).to_owned();
                proof {
                    assert(self.spec_path().take(pos as int) =~= self.spec_path().subrange(
                        0,
                        pos as int,
                    ));
                }
                Some(Block { path: parent })
            },
            Err(_) => None,
        }
    }

    /// The instances whose derived parent path is this instance's path,
    /// sorted ascending by path: exactly the listed instances whose
    /// `parent_device` resolves here, each once, and no others.  Rescans the
    /// whole class on every call; fails with the listing's error kind when
    /// the class root cannot be listed.
    pub fn children(&self, fs: &SysFs) -> (r: Result<Vec<Block>, Error>)
        requires
            fs.wf(),
            fs.spec_list(spec_class_root()) matches Ok(names) ==> all_offsets_ok(fs, names),
        ensures
            match fs.spec_list(spec_class_root()) {
                Ok(names) => r matches Ok(v) && paths_sorted(v@) && paths_distinct(v@) && (forall|i: int|
                    0 <= i < v@.len() ==> is_child_path(
                        fs,
                        names,
                        self.spec_path(),
                        (#[trigger] v@[i]).spec_path(),
                    )) && (forall|j: int|
                    0 <= j < names.len() && spec_parent_path(
                        fs,
                        spec_instance_path(#[trigger] names[j]),
                    ) == Some(self.spec_path()) ==> path_in(v@, spec_instance_path(names[j]))),
                Err(e) => r == Err::<Vec<Block>, Error>(e),
            },
    {
        let blocks = match Self::all(fs) {
            Ok(b) => b,
            Err(e) => {
                return Err(e);
            },
        };
        let ghost names = fs.spec_list(spec_class_root())->Ok_0;
        proof {
            lemma_wf_dir_names(fs, spec_class_root());
        }
        let mut out: Vec<Block> = Vec::new();
        let mut idx: usize = 0;
        while idx < blocks.len()
            invariant
                fs.wf(),
                all_offsets_ok(fs, names),
                fs.spec_list(spec_class_root()) == Ok::<Seq<Seq<char>>, Error>(names),
                dir_names_ok(names),
                blocks@.len() == names.len(),
                forall|i: int|
                    0 <= i < names.len() ==> (#[trigger] blocks@[i]).spec_path()
                        == spec_instance_path(names[i]),
                0 <= idx <= blocks@.len(),
                paths_sorted(out@),
                paths_distinct(out@),
                forall|i: int|
                    0 <= i < out@.len() ==> is_child_path(
                        fs,
                        names.take(idx as int),
                        self.spec_path(),
                        (#[trigger] out@[i]).spec_path(),
                    ),
                forall|j: int|
                    0 <= j < idx && spec_parent_path(
                        fs,
                        spec_instance_path(#[trigger] names[j]),
                    ) == Some(self.spec_path()) ==> path_in(out@, spec_instance_path(names[j])),
            decreases blocks@.len() - idx,
        {
            let b = &blocks[idx];
            proof {
                assert(b.spec_path() == spec_instance_path(names[idx as int]));
                assert(parent_offset_ok(fs, spec_instance_path(names[idx as int])));
            }
            let ghost prev = out@;
            match b.parent_device(fs) {
                Some(par) => {
                    if str_eq(par.path(), self.path.as_str()) {
                        proof {
                            if path_in(out@, b.spec_path()) {
                                let i0 = choose|i: int|
                                    0 <= i < out@.len() && (#[trigger] out@[i]).spec_path()
                                        == b.spec_path();
                                assert(is_child_path(
                                    fs,
                                    names.take(idx as int),
                                    self.spec_path(),
                                    out@[i0].spec_path(),
                                ));
                                let j0 = choose|j: int|
                                    0 <= j < names.take(idx as int).len() && out@[i0].spec_path()
                                        == spec_instance_path(
                                        #[trigger] names.take(idx as int)[j],
                                    ) && spec_parent_path(fs, out@[i0].spec_path()) == Some(
                                        self.spec_path(),
                                    );
                                lemma_instance_path_injective(names[j0], names[idx as int]);
                                assert(false);
                            }
                        }
                        let nb = Block { path: b.path.clone() };
                        insert_sorted(&mut out, nb);
                    }
                },
                None => {},
            }
            idx = idx + 1;
            proof {
                assert forall|i: int| 0 <= i < out@.len() implies is_child_path(
                    fs,
                    names.take(idx as int),
                    self.spec_path(),
                    (#[trigger] out@[i]).spec_path(),
                ) by {
                    if out@[i].spec_path() == b.spec_path() && spec_parent_path(
                        fs,
                        b.spec_path(),
                    ) == Some(self.spec_path()) {
                        assert(names.take(idx as int)[idx - 1] == names[idx - 1]);
                        assert(out@[i].spec_path() == spec_instance_path(
                            names.take(idx as int)[idx - 1],
                        ));
                    } else {
                        assert(path_in(prev, out@[i].spec_path()));
                        let i1 = choose|m: int|
                            0 <= m < prev.len() && (#[trigger] prev[m]).spec_path()
                                == out@[i].spec_path();
                        assert(is_child_path(
                            fs,
                            names.take(idx - 1),
                            self.spec_path(),
                            prev[i1].spec_path(),
                        ));
                        let j1 = choose|j: int|
                            0 <= j < names.take(idx - 1).len() && prev[i1].spec_path()
                                == spec_instance_path(#[trigger] names.take(idx - 1)[j])
                                && spec_parent_path(fs, prev[i1].spec_path()) == Some(
                                self.spec_path(),
                            );
                        assert(names.take(idx as int)[j1] == names[j1]);
                        assert(out@[i].spec_path() == spec_instance_path(
                            names.take(idx as int)[j1],
                        ));
                    }
                }
            }
        }
        proof {
            assert(names.take(names.len() as int) =~= names);
        }
        Ok(out)
    }
}

} // verus!
