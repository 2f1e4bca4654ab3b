//! Mapping of container paths onto a hierarchical file store, with the check
//! that a path stays inside the container.
use vstd::prelude::*;
use vstd::string::*;

use crate::block::{
    decode_block, encode_header, DataBlock, DefaultBlock, DefaultBlockReader, DefaultBlockWriter,
    VecDataBlock, WriteableDataBlock,
};
use crate::coords::GridCoord;
use crate::data_type::ReflectedType;
use crate::dataset::DatasetAttributes;
use crate::json::{json_of, JsonValue};
use crate::version::{
    is_version_compatible, library_version, stored_version, version_from_attributes,
    VERSION_MAJOR,
};
use crate::N5Error;

verus! {

/// Name of the file holding a node's attributes.
pub const ATTRIBUTES_FILE: &'static str = "attributes.json";

/// The pieces of `p` between slashes, left to right.
pub open spec fn segments(p: Seq<char>) -> Seq<Seq<char>>
    decreases p.len(),
{
    if p.len() == 0 {
        seq![Seq::empty()]
    } else {
        let s = segments(p.drop_last());
        if p.last() == '/' {
            s.push(Seq::empty())
        } else {
            s.update(s.len() - 1, s.last().push(p.last()))
        }
    }
}

/// Change of depth that a path segment makes: none for an empty segment or
/// `.`, one level up for `..`, one level down for a name.
pub open spec fn step(seg: Seq<char>) -> int {
    if seg.len() == 0 || seg == seq!['.'] {
        0
    } else if seg == seq!['.', '.'] {
        -1
    } else {
        1
    }
}

/// Depth reached after the first `k` segments.
pub open spec fn depth(segs: Seq<Seq<char>>, k: int) -> int
    decreases k,
{
    if k <= 0 {
        0
    } else {
        depth(segs, k - 1) + step(segs[k - 1])
    }
}

/// A relative path whose resolution never goes above the container root.
pub open spec fn contained(p: Seq<char>) -> bool {
    &&& !(p.len() > 0 && p[0] == '/')
    &&& forall|k: int| 0 <= k <= segments(p).len() ==> depth(segments(p), k) >= 0
}

/// `b` appended to the path `a`, with one separator between them.
pub open spec fn join_path(a: Seq<char>, b: Seq<char>) -> Seq<char> {
    if b.len() == 0 {
        a
    } else if a.len() == 0 || a.last() == '/' {
        a + b
    } else {
        a + seq!['/'] + b
    }
}

pub open spec fn digit_char(d: nat) -> char {
    if d == 0 {
        '0'
    } else if d == 1 {
        '1'
    } else if d == 2 {
        '2'
    } else if d == 3 {
        '3'
    } else if d == 4 {
        '4'
    } else if d == 5 {
        '5'
    } else if d == 6 {
        '6'
    } else if d == 7 {
        '7'
    } else if d == 8 {
        '8'
    } else {
        '9'
    }
}

/// Decimal digits of `n`, without leading zeros.
pub open spec fn decimal(n: nat) -> Seq<char>
    decreases n,
{
    if n < 10 {
        seq![digit_char(n)]
    } else {
        decimal(n / 10).push(digit_char(n % 10))
    }
}

/// `base` followed by one segment per grid coordinate, in decimal.
pub open spec fn block_path(base: Seq<char>, grid: Seq<u64>) -> Seq<char>
    decreases grid.len(),
{
    if grid.len() == 0 {
        base
    } else {
        join_path(block_path(base, grid.drop_last()), decimal(grid.last() as nat))
    }
}

proof fn lemma_depth_prefix(a: Seq<Seq<char>>, b: Seq<Seq<char>>, k: int)
    requires
        0 <= k <= a.len(),
        k <= b.len(),
        forall|j: int| 0 <= j < k ==> a[j] == b[j],
    ensures
        depth(a, k) == depth(b, k),
    decreases k,
{
    if k > 0 {
        lemma_depth_prefix(a, b, k - 1);
    }
}

fn digit_str(d: u64) -> (r: &'static str)
    requires
        d < 10,
    ensures
        r@ == seq![digit_char(d as nat)],
{
    proof {
        reveal_strlit("0");
        reveal_strlit("1");
        reveal_strlit("2");
        reveal_strlit("3");
        reveal_strlit("4");
        reveal_strlit("5");
        reveal_strlit("6");
        reveal_strlit("7");
        reveal_strlit("8");
        reveal_strlit("9");
    }
    if d == 0 {
        "0"
    } else if d == 1 {
        "1"
    } else if d == 2 {
        "2"
    } else if d == 3 {
        "3"
    } else if d == 4 {
        "4"
    } else if d == 5 {
        "5"
    } else if d == 6 {
        "6"
    } else if d == 7 {
        "7"
    } else if d == 8 {
        "8"
    } else {
        "9"
    }
}

/// Appends the decimal digits of `n` to `out`.
pub fn push_decimal(n: u64, out: &mut String)
    ensures
        final(out)@ == old(out)@ + decimal(n as nat),
    decreases n,
{
    if n < 10 {
        out.append(digit_str(n));
    } else {
        push_decimal(n / 10, out);
        out.append(digit_str(n % 10));
    }
}

/// Appends `seg` to the path `out`, as `join_path` does.
fn push_segment(out: &mut String, seg: &str)
    ensures
        final(out)@ == join_path(old(out)@, seg@),
{
    let n = out.as_str().unicode_len();
    if seg.unicode_len() == 0 {
    } else if n == 0 || out.as_str().get_char(n - 1) == '/' {
        out.append(seg);
    } else {
        proof {
            reveal_strlit("/");
        }
        out.append("/");
        out.append(seg);
        assert(final(out)@ =~= old(out)@ + seq!['/'] + seg@);
    }
}

/// Whether `path_name` is a relative path that never leaves the root.
pub fn is_contained(path_name: &str) -> (r: bool)
    ensures
        r == contained(path_name@),
{
    let len = path_name.unicode_len();
    if len > 0 && path_name.get_char(0) == '/' {
        return false;
    }
    let ghost p = path_name@;
    let mut up: usize = 0;
    let mut down: usize = 0;
    let mut ok = true;
    let mut seg_len: usize = 0;
    let mut seg_dots = true;
    let mut i: usize = 0;
    while i < len
        invariant
            0 <= i <= len,
            len == p.len(),
            p == path_name@,
            segments(p.subrange(0, i as int)).len() >= 1,
            segments(p.subrange(0, i as int)).len() <= i + 1,
            up - down == depth(
                segments(p.subrange(0, i as int)),
                segments(p.subrange(0, i as int)).len() - 1,
            ),
            up + down + seg_len <= i,
            ok == forall|k: int|
                0 <= k < segments(p.subrange(0, i as int)).len() ==> depth(
                    segments(p.subrange(0, i as int)),
                    k,
                ) >= 0,
            seg_len == segments(p.subrange(0, i as int)).last().len(),
            seg_dots == forall|j: int|
                0 <= j < seg_len ==> segments(p.subrange(0, i as int)).last()[j] == '.',
        decreases len - i,
    {
        let ghost old_segs = segments(p.subrange(0, i as int));
        let c = path_name.get_char(i);
        assert(p.subrange(0, i + 1).drop_last() =~= p.subrange(0, i as int));
        let ghost new_segs = segments(p.subrange(0, i + 1));
        if c == '/' {
            proof {
                let last = old_segs.last();
                assert(new_segs == old_segs.push(Seq::empty()));
                if seg_len == 1 && seg_dots {
                    assert(last =~= seq!['.']);
                } else if seg_len == 2 && seg_dots {
                    assert(last =~= seq!['.', '.']);
                } else if seg_len == 1 {
                    assert(last != seq!['.', '.']);
                    assert(last[0] != '.');
                } else if seg_len == 2 {
                    assert(last != seq!['.']);
                } else {
                    assert(last.len() != 1 && last.len() != 2);
                }
                assert(step(last) == if seg_len == 0 || (seg_len == 1 && seg_dots) {
                    0int
                } else if seg_len == 2 && seg_dots {
                    -1int
                } else {
                    1int
                });
            }
            if seg_len == 0 || (seg_len == 1 && seg_dots) {
            } else if seg_len == 2 && seg_dots {
                down = down + 1;
            } else {
                up = up + 1;
            }
            proof {
                let k = old_segs.len() as int;
                lemma_depth_prefix(old_segs, new_segs, k - 1);
                assert(depth(new_segs, k) == depth(new_segs, k - 1) + step(new_segs[k - 1]));
                assert forall|j: int| 0 <= j < k implies depth(old_segs, j) == depth(new_segs, j) by {
                    lemma_depth_prefix(old_segs, new_segs, j);
                }
            }
            if down > up {
                ok = false;
            }
            seg_len = 0;
            seg_dots = true;
            assert(new_segs.last() =~= Seq::<char>::empty());
        } else {
            proof {
                let k = old_segs.len() as int;
                assert(new_segs == old_segs.update(k - 1, old_segs.last().push(c)));
                lemma_depth_prefix(old_segs, new_segs, k - 1);
                assert forall|j: int| 0 <= j < k implies depth(old_segs, j) == depth(new_segs, j) by {
                    lemma_depth_prefix(old_segs, new_segs, j);
                }
            }
            assert(new_segs.last() == old_segs.last().push(c));
            proof {
                let nl = new_segs.last();
                if seg_dots && c == '.' {
                    assert forall|j: int| 0 <= j < seg_len + 1 implies nl[j] == '.' by {
                        if j < seg_len {
                            assert(nl[j] == old_segs.last()[j]);
                        }
                    }
                } else if !seg_dots {
                    let j = choose|j: int| 0 <= j < seg_len && old_segs.last()[j] != '.';
                    assert(nl[j] == old_segs.last()[j]);
                } else {
                    assert(nl[seg_len as int] == c);
                }
            }
            seg_dots = seg_dots && c == '.';
            seg_len = seg_len + 1;
        }
        i += 1;
    }
    let ghost segs = segments(p.subrange(0, i as int));
    assert(p.subrange(0, i as int) =~= p);
    proof {
        let last = segs.last();
        if seg_len == 1 && seg_dots {
            assert(last =~= seq!['.']);
        } else if seg_len == 2 && seg_dots {
            assert(last =~= seq!['.', '.']);
        } else if seg_len == 1 {
            assert(last[0] != '.');
        } else if seg_len == 2 {
            assert(last != seq!['.']);
        }
    }
    if seg_len == 0 || (seg_len == 1 && seg_dots) {
    } else if seg_len == 2 && seg_dots {
        down = down + 1;
    } else {
        up = up + 1;
    }
    assert(depth(segs, segs.len() as int) == up - down);
    ok && down <= up
}

/// A container stored under a directory of the file system.
pub struct N5Filesystem {
    base_path: String,
}

impl N5Filesystem {
    pub closed spec fn spec_base_path(&self) -> Seq<char> {
        self.base_path@
    }

    /// Opens the existing container rooted at `base_path`, given its root
    /// attributes (`None` when the root directory does not exist). Fails with
    /// `NotFound` when there is no root or no version attribute, with
    /// `InvalidData` when the version does not read, and with `Incompatible`
    /// when its major version is newer than this library's.
    pub fn open(base_path: &str, root_attributes: Option<&JsonValue>) -> (r: Result<
        N5Filesystem,
        N5Error,
    >)
        ensures
            match root_attributes {
                None => r is Err && r->Err_0 == N5Error::NotFound,
                Some(a) => match stored_version(json_of(*a)) {
                    Err(e) => r is Err && r->Err_0 == e,
                    Ok(v) => if v.major <= VERSION_MAJOR {
                        r is Ok && r->Ok_0.spec_base_path() == base_path@
                    } else {
                        r is Err && r->Err_0 == N5Error::Incompatible
                    },
                },
            },
    {
        let attrs = match root_attributes {
            Some(a) => a,
            None => {
                return Err(N5Error::NotFound);
            },
        };
        let version = match version_from_attributes(attrs) {
            Ok(v) => v,
            Err(e) => {
                return Err(e);
            },
        };
        if !is_version_compatible(&library_version(), &version) {
            return Err(N5Error::Incompatible);
        }
        Ok(N5Filesystem { base_path: String::from_str(base_path) })
    }

    /// Opens the container rooted at `base_path`, whose root now exists with
    /// attributes `root_attributes`; the caller then records this library's
    /// version there. Fails with `Incompatible` only when a readable version
    /// is recorded whose major version is newer than this library's.
    pub fn open_or_create(base_path: &str, root_attributes: &JsonValue) -> (r: Result<
        N5Filesystem,
        N5Error,
    >)
        ensures
            match stored_version(json_of(*root_attributes)) {
                Ok(v) => if v.major <= VERSION_MAJOR {
                    r is Ok && r->Ok_0.spec_base_path() == base_path@
                } else {
                    r is Err && r->Err_0 == N5Error::Incompatible
                },
                Err(_) => r is Ok && r->Ok_0.spec_base_path() == base_path@,
            },
    {
        match version_from_attributes(root_attributes) {
            Ok(v) => {
                if !is_version_compatible(&library_version(), &v) {
                    return Err(N5Error::Incompatible);
                }
            },
            Err(_) => {},
        }
        Ok(N5Filesystem { base_path: String::from_str(base_path) })
    }

    /// The container's root directory.
    pub fn base_path(&self) -> (r: &str)
        ensures
            r@ == self.spec_base_path(),
    {
        self.base_path.as_str()
    }

    /// The location of the node `path_name`; fails with `NotFound` when the
    /// path is absolute or leaves the root.
    pub fn get_path(&self, path_name: &str) -> (r: Result<String, N5Error>)
        ensures
            contained(path_name@) ==> r is Ok && r->Ok_0@ == join_path(
                self.spec_base_path(),
                path_name@,
            ),
            !contained(path_name@) ==> r is Err && r->Err_0 == N5Error::NotFound,
    {
        if !is_contained(path_name) {
            return Err(N5Error::NotFound);
        }
        let mut out = self.base_path.clone();
        push_segment(&mut out, path_name);
        Ok(out)
    }

    /// The location of the block at `grid_position` of dataset `path_name`.
    pub fn get_data_block_path(&self, path_name: &str, grid_position: &[u64]) -> (r: Result<
        String,
        N5Error,
    >)
        ensures
            contained(path_name@) ==> r is Ok && r->Ok_0@ == block_path(
                join_path(self.spec_base_path(), path_name@),
                grid_position@,
            ),
            !contained(path_name@) ==> r is Err && r->Err_0 == N5Error::NotFound,
    {
        let mut path = match self.get_path(path_name) {
            Ok(p) => p,
            Err(e) => {
                return Err(e);
            },
        };
        let ghost base = path@;
        let mut i: usize = 0;
        while i < grid_position.len()
            invariant
                0 <= i <= grid_position@.len(),
                path@ == block_path(base, grid_position@.subrange(0, i as int)),
            decreases grid_position@.len() - i,
        {
            let mut seg = String::new();
            push_decimal(grid_position[i], &mut seg);
            push_segment(&mut path, seg.as_str());
            assert(grid_position@.subrange(0, i + 1).drop_last() =~= grid_position@.subrange(
                0,
                i as int,
            ));
            i += 1;
        }
        assert(grid_position@.subrange(0, i as int) =~= grid_position@);
        Ok(path)
    }

    /// The location of the attributes file of node `path_name`.
    pub fn get_attributes_path(&self, path_name: &str) -> (r: Result<String, N5Error>)
        ensures
            contained(path_name@) ==> r is Ok && r->Ok_0@ == join_path(
                join_path(self.spec_base_path(), path_name@),
                ATTRIBUTES_FILE@,
            ),
            !contained(path_name@) ==> r is Err && r->Err_0 == N5Error::NotFound,
    {
        let mut path = match self.get_path(path_name) {
            Ok(p) => p,
            Err(e) => {
                return Err(e);
            },
        };
        push_segment(&mut path, ATTRIBUTES_FILE);
        Ok(path)
    }

    /// Reads the block at `grid_position` of dataset `path_name`, given the
    /// contents of its file (`None` when the file does not exist, which is
    /// an absent block rather than an error).
    pub fn read_block<T: ReflectedType>(
        &self,
        path_name: &str,
        data_attrs: &DatasetAttributes,
        grid_position: GridCoord,
        block_file: Option<&[u8]>,
    ) -> (r: Result<Option<VecDataBlock<T>>, N5Error>)
        ensures
            !contained(path_name@) ==> r is Err && r->Err_0 == N5Error::NotFound,
            contained(path_name@) && block_file is None ==> r is Ok && r->Ok_0 is None,
            contained(path_name@) && block_file is Some && data_attrs@.data_type
                != T::spec_variant() ==> r is Err && r->Err_0 == N5Error::InvalidInput,
            contained(path_name@) && block_file is Some && data_attrs@.data_type
                == T::spec_variant() ==> match decode_block::<T>(block_file->Some_0@) {
                Ok((size, data)) => r is Ok && r->Ok_0 is Some && r->Ok_0->Some_0.spec_size()
                    == size && r->Ok_0->Some_0.spec_grid_position() == grid_position@
                    && r->Ok_0->Some_0.spec_data() == data,
                Err(e) => r is Err && r->Err_0 == e,
            },
    {
        if !is_contained(path_name) {
            return Err(N5Error::NotFound);
        }
        match block_file {
            None => Ok(None),
            Some(bytes) => match <DefaultBlock as DefaultBlockReader<T>>::read_block(bytes, data_attrs, grid_position) {
                Ok(b) => Ok(Some(b)),
                Err(e) => Err(e),
            },
        }
    }

    /// The location and the contents of the file of `block` in dataset
    /// `path_name`.
    pub fn write_block<T: ReflectedType, B: DataBlock<T> + WriteableDataBlock>(
        &self,
        path_name: &str,
        data_attrs: &DatasetAttributes,
        block: &B,
    ) -> (r: Result<(String, Vec<u8>), N5Error>)
        requires
            data_attrs@.dimensions.len() <= u16::MAX,
            block.spec_size().len() == data_attrs@.dimensions.len(),
            block.spec_data().len() <= u32::MAX,
        ensures
            !contained(path_name@) ==> r is Err && r->Err_0 == N5Error::NotFound,
            contained(path_name@) ==> r is Ok && r->Ok_0.0@ == block_path(
                join_path(self.spec_base_path(), path_name@),
                block.spec_grid_position(),
            ) && r->Ok_0.1@ == encode_header(
                data_attrs@.dimensions.len() as u16,
                block.spec_size(),
                block.spec_data().len() as u32,
            ) + block.spec_payload(),
    {
        let path = match self.get_data_block_path(path_name, block.get_grid_position()) {
            Ok(p) => p,
            Err(e) => {
                return Err(e);
            },
        };
        let bytes = <DefaultBlock as DefaultBlockWriter<T, B>>::write_block(data_attrs, block);
        Ok((path, bytes))
    }

    /// A stable identifier of a block: the location of its file.
    pub fn get_block_uri(&self, path_name: &str, grid_position: &[u64]) -> (r: Result<
        String,
        N5Error,
    >)
        ensures
            contained(path_name@) ==> r is Ok && r->Ok_0@ == block_path(
                join_path(self.spec_base_path(), path_name@),
                grid_position@,
            ),
            !contained(path_name@) ==> r is Err && r->Err_0 == N5Error::NotFound,
    {
        self.get_data_block_path(path_name, grid_position)
    }
}

} // verus!
