//! Dataset attributes and the block grid they imply.
use vstd::prelude::*;

use vstd::string::*;

use crate::compression::{CompressionType, RawCompression};
use crate::coords::{BlockCoord, GridCoord};
use crate::data_type::DataType;
use crate::filesystem::{decimal, digit_char, push_decimal};
use crate::json::{
    entries_of, find_entry, find_key, json_of, keys_unique, lemma_find_key_unique,
    lemma_json_of_array, lemma_json_of_object, Json, JsonValue,
};
use crate::N5Error;

verus! {

/// Product of a sequence of integers.
pub open spec fn product(s: Seq<int>) -> int
    decreases s.len(),
{
    if s.len() == 0 {
        1
    } else {
        product(s.drop_last()) * s.last()
    }
}

pub open spec fn ints_u64(s: Seq<u64>) -> Seq<int> {
    s.map_values(|x: u64| x as int)
}

pub open spec fn ints_u32(s: Seq<u32>) -> Seq<int> {
    s.map_values(|x: u32| x as int)
}

/// Number of blocks of extent `b` needed to cover `d` elements.
pub open spec fn ceil_div(d: u64, b: u32) -> int
    recommends
        b > 0,
{
    d as int / b as int + if d as int % b as int != 0 {
        1int
    } else {
        0int
    }
}

/// Per-axis number of blocks of a grid.
pub open spec fn grid_extent_of(dims: Seq<u64>, bs: Seq<u32>) -> Seq<int> {
    Seq::new(dims.len(), |i: int| ceil_div(dims[i], bs[i]))
}

/// Whether `g` addresses a block inside a grid of the given per-axis extents.
pub open spec fn in_grid(extent: Seq<int>, g: Seq<u64>) -> bool {
    g.len() == extent.len() && forall|i: int| 0 <= i < g.len() ==> (g[i] as int) < extent[i]
}

/// Each axis of the grid has the fewest blocks that cover its dimension, and
/// the number of blocks is the product of the axes' block counts.
pub proof fn lemma_grid_extent_is_ceiling(a: DatasetAttributesModel, i: int)
    requires
        a.wf(),
        0 <= i < a.dimensions.len(),
    ensures
        a.grid_extent().len() == a.dimensions.len(),
        a.grid_extent()[i] * a.block_size[i] >= a.dimensions[i],
        (a.grid_extent()[i] - 1) * a.block_size[i] < a.dimensions[i],
        a.num_blocks() == product(a.grid_extent()),
{
    let d = a.dimensions[i] as int;
    let b = a.block_size[i] as int;
    let q = d / b;
    let r = d % b;
    vstd::arithmetic::div_mod::lemma_fundamental_div_mod(d, b);
    assert(0 <= r < b);
    let e = a.grid_extent()[i];
    if r != 0 {
        assert(e == q + 1);
        assert(e * b == q * b + b) by (nonlinear_arith)
            requires
                e == q + 1,
        ;
        assert((e - 1) * b == q * b);
    } else {
        assert(e == q);
        assert((e - 1) * b == q * b - b) by (nonlinear_arith)
            requires
                e == q,
        ;
    }
}

/// The values a dataset's attributes describe.
pub struct DatasetAttributesModel {
    pub dimensions: Seq<u64>,
    pub block_size: Seq<u32>,
    pub data_type: DataType,
    pub compression: CompressionType,
}

impl DatasetAttributesModel {
    /// Axis counts agree and no block extent is zero.
    pub open spec fn wf(self) -> bool {
        &&& self.dimensions.len() == self.block_size.len()
        &&& forall|i: int| 0 <= i < self.block_size.len() ==> self.block_size[i] > 0
    }

    pub open spec fn grid_extent(self) -> Seq<int> {
        grid_extent_of(self.dimensions, self.block_size)
    }

    pub open spec fn num_blocks(self) -> int {
        product(self.grid_extent())
    }
}

pub(crate) proof fn lemma_product_nonneg(s: Seq<int>)
    requires
        forall|j: int| 0 <= j < s.len() ==> s[j] >= 0,
    ensures
        product(s) >= 0,
    decreases s.len(),
{
    if s.len() > 0 {
        lemma_product_nonneg(s.drop_last());
        let p = product(s.drop_last());
        assert(p * s.last() >= 0) by (nonlinear_arith)
            requires
                p >= 0,
                s.last() >= 0,
        ;
    }
}

pub(crate) proof fn lemma_product_zero(s: Seq<int>, k: int)
    requires
        0 <= k < s.len(),
        s[k] == 0,
    ensures
        product(s) == 0,
    decreases s.len(),
{
    if k < s.len() - 1 {
        lemma_product_zero(s.drop_last(), k);
    }
}

pub(crate) proof fn lemma_product_prefix_le(s: Seq<int>, i: int)
    requires
        0 <= i <= s.len(),
        forall|j: int| 0 <= j < s.len() ==> s[j] >= 1,
    ensures
        1 <= product(s.subrange(0, i)) <= product(s),
    decreases s.len(),
{
    if s.len() > 0 {
        if i == s.len() {
            assert(s.subrange(0, i) =~= s);
            lemma_product_prefix_le(s.drop_last(), i - 1);
            assert(s.drop_last().subrange(0, i - 1) =~= s.drop_last());
        } else {
            lemma_product_prefix_le(s.drop_last(), i);
            assert(s.drop_last().subrange(0, i) =~= s.subrange(0, i));
        }
        let p = product(s.drop_last());
        assert(p * s.last() >= p) by (nonlinear_arith)
            requires
                p >= 1,
                s.last() >= 1,
        ;
    } else {
        assert(s.subrange(0, i) =~= s);
    }
}

/// Product of a sequence of 64-bit words.
fn product_u64(s: &[u64]) -> (r: u64)
    requires
        product(ints_u64(s@)) <= u64::MAX,
    ensures
        r == product(ints_u64(s@)),
{
    let ghost si = ints_u64(s@);
    let mut k: usize = 0;
    while k < s.len()
        invariant
            0 <= k <= s@.len(),
            si == ints_u64(s@),
            forall|j: int| 0 <= j < k ==> s@[j] >= 1,
        decreases s@.len() - k,
    {
        if s[k] == 0 {
            proof {
                lemma_product_zero(si, k as int);
            }
            return 0;
        }
        k += 1;
    }
    let mut acc: u64 = 1;
    let mut i: usize = 0;
    while i < s.len()
        invariant
            0 <= i <= s@.len(),
            si == ints_u64(s@),
            forall|j: int| 0 <= j < s@.len() ==> si[j] >= 1,
            product(si) <= u64::MAX,
            acc == product(si.subrange(0, i as int)),
        decreases s@.len() - i,
    {
        proof {
            lemma_product_prefix_le(si, i + 1);
            assert(si.subrange(0, i + 1).drop_last() =~= si.subrange(0, i as int));
        }
        acc = acc * s[i];
        i += 1;
    }
    assert(si.subrange(0, s@.len() as int) =~= si);
    acc
}

/// Product of a sequence of 32-bit words.
fn product_u32(s: &[u32]) -> (r: u64)
    requires
        product(ints_u32(s@)) <= u64::MAX,
    ensures
        r == product(ints_u32(s@)),
{
    let mut wide: Vec<u64> = Vec::new();
    let mut i: usize = 0;
    while i < s.len()
        invariant
            0 <= i <= s@.len(),
            wide@.len() == i,
            forall|j: int| 0 <= j < i ==> wide@[j] == s@[j],
        decreases s@.len() - i,
    {
        wide.push(s[i] as u64);
        i += 1;
    }
    assert(ints_u64(wide@) =~= ints_u32(s@));
    product_u64(wide.as_slice())
}

/// Attributes of a tensor dataset.
#[derive(Debug)]
pub struct DatasetAttributes {
    /// Dimensions of the entire dataset, in voxels.
    dimensions: GridCoord,
    /// Size of each block, in voxels.
    block_size: BlockCoord,
    /// Element data type.
    data_type: DataType,
    /// Compression scheme for voxel data in each block.
    compression: CompressionType,
}

impl View for DatasetAttributes {
    type V = DatasetAttributesModel;

    closed spec fn view(&self) -> DatasetAttributesModel {
        DatasetAttributesModel {
            dimensions: self.dimensions@,
            block_size: self.block_size@,
            data_type: self.data_type,
            compression: self.compression,
        }
    }
}

/// Whether two sequences of words are equal.
fn words_eq(a: &[u64], b: &[u64]) -> (r: bool)
    ensures
        r == (a@ == b@),
{
    if a.len() != b.len() {
        return false;
    }
    let mut i: usize = 0;
    while i < a.len()
        invariant
            0 <= i <= a@.len(),
            a@.len() == b@.len(),
            forall|j: int| 0 <= j < i ==> a@[j] == b@[j],
        decreases a@.len() - i,
    {
        if a[i] != b[i] {
            return false;
        }
        i += 1;
    }
    assert(a@ =~= b@);
    true
}

/// Whether two sequences of 32-bit words are equal.
fn words32_eq(a: &[u32], b: &[u32]) -> (r: bool)
    ensures
        r == (a@ == b@),
{
    if a.len() != b.len() {
        return false;
    }
    let mut i: usize = 0;
    while i < a.len()
        invariant
            0 <= i <= a@.len(),
            a@.len() == b@.len(),
            forall|j: int| 0 <= j < i ==> a@[j] == b@[j],
        decreases a@.len() - i,
    {
        if a[i] != b[i] {
            return false;
        }
        i += 1;
    }
    assert(a@ =~= b@);
    true
}

impl PartialEq for DatasetAttributes {
    fn eq(&self, o: &DatasetAttributes) -> (r: bool) {
        words_eq(self.dimensions.as_slice(), o.dimensions.as_slice()) && words32_eq(
            self.block_size.as_slice(),
            o.block_size.as_slice(),
        ) && self.data_type == o.data_type && self.compression == o.compression
    }
}

impl vstd::std_specs::cmp::PartialEqSpecImpl for DatasetAttributes {
    open spec fn obeys_eq_spec() -> bool {
        true
    }

    open spec fn eq_spec(&self, o: &DatasetAttributes) -> bool {
        self@ == o@
    }
}

impl DatasetAttributes {
    #[verifier::type_invariant]
    spec fn inv(&self) -> bool {
        self@.wf()
    }

    pub fn new(
        dimensions: GridCoord,
        block_size: BlockCoord,
        data_type: DataType,
        compression: CompressionType,
    ) -> (r: DatasetAttributes)
        requires
            dimensions@.len() == block_size@.len(),
            forall|i: int| 0 <= i < block_size@.len() ==> block_size@[i] > 0,
        ensures
            r@ == (DatasetAttributesModel {
                dimensions: dimensions@,
                block_size: block_size@,
                data_type,
                compression,
            }),
    {
        DatasetAttributes { dimensions, block_size, data_type, compression }
    }

    pub fn get_dimensions(&self) -> (r: &[u64])
        ensures
            r@ == self@.dimensions,
    {
        self.dimensions.as_slice()
    }

    pub fn get_block_size(&self) -> (r: &[u32])
        ensures
            r@ == self@.block_size,
    {
        self.block_size.as_slice()
    }

    pub fn get_data_type(&self) -> (r: &DataType)
        ensures
            *r == self@.data_type,
    {
        &self.data_type
    }

    pub fn get_compression(&self) -> (r: &CompressionType)
        ensures
            *r == self@.compression,
    {
        &self.compression
    }

    pub fn get_ndim(&self) -> (r: usize)
        ensures
            r == self@.dimensions.len(),
    {
        self.dimensions.as_slice().len()
    }

    /// Total number of elements possible given the dimensions.
    pub fn get_num_elements(&self) -> (r: usize)
        requires
            product(ints_u64(self@.dimensions)) <= usize::MAX,
        ensures
            r == product(ints_u64(self@.dimensions)),
    {
        product_u64(self.dimensions.as_slice()) as usize
    }

    /// Total number of elements possible in a block.
    pub fn get_block_num_elements(&self) -> (r: usize)
        requires
            product(ints_u32(self@.block_size)) <= usize::MAX,
        ensures
            r == product(ints_u32(self@.block_size)),
    {
        product_u32(self.block_size.as_slice()) as usize
    }

    /// Upper bound extent of grid coordinates: blocks per axis.
    pub fn get_grid_extent(&self) -> (r: GridCoord)
        ensures
            ints_u64(r@) == self@.grid_extent(),
    {
        proof {
            use_type_invariant(self);
        }
        let dims = self.dimensions.as_slice();
        let bs = self.block_size.as_slice();
        let mut r: Vec<u64> = Vec::new();
        let mut i: usize = 0;
        while i < dims.len()
            invariant
                0 <= i <= self@.dimensions.len(),
                self@.wf(),
                dims@ == self@.dimensions,
                bs@ == self@.block_size,
                r@.len() == i,
                forall|j: int| 0 <= j < i ==> r@[j] == ceil_div(self@.dimensions[j], self@.block_size[j]),
            decreases self@.dimensions.len() - i,
        {
            let d = dims[i];
            let b = bs[i] as u64;
            let q = d / b;
            if d % b != 0 {
                assert(b >= 2) by {
                    if b == 1 {
                        assert(d % 1 == 0);
                    }
                }
                assert(q <= d / 2) by {
                    vstd::arithmetic::div_mod::lemma_div_is_ordered_by_denominator(d as int, 2, b as int);
                }
            }
            let e = if d % b != 0 { q + 1 } else { q };
            r.push(e);
            i += 1;
        }
        assert(ints_u64(r@) =~= self@.grid_extent());
        GridCoord::from_slice(r.as_slice())
    }

    /// Total number of blocks.
    pub fn get_num_blocks(&self) -> (r: u64)
        requires
            self@.num_blocks() <= u64::MAX,
        ensures
            r == self@.num_blocks(),
    {
        let g = self.get_grid_extent();
        product_u64(g.as_slice())
    }

    /// Whether a block grid position is in the bounds of this dataset.
    pub fn in_bounds(&self, grid_position: &GridCoord) -> (r: bool)
        ensures
            r == in_grid(self@.grid_extent(), grid_position@),
    {
        let gp = grid_position.as_slice();
        if self.dimensions.as_slice().len() != gp.len() {
            return false;
        }
        let gc = self.get_grid_extent();
        let g = gc.as_slice();
        assert(g@.len() == ints_u64(g@).len());
        let mut i: usize = 0;
        while i < g.len()
            invariant
                0 <= i <= g@.len(),
                g@.len() == gp@.len(),
                gp@ == grid_position@,
                ints_u64(g@) == self@.grid_extent(),
                forall|j: int| 0 <= j < i ==> (gp@[j] as int) < self@.grid_extent()[j],
            decreases g@.len() - i,
        {
            if gp[i] >= g[i] {
                return false;
            }
            i += 1;
        }
        true
    }
}

/// Value of a character that is a decimal digit.
pub open spec fn digit_value(c: char) -> int {
    c as u32 - '0' as u32
}

pub open spec fn is_digit(c: char) -> bool {
    '0' <= c <= '9'
}

/// Value of a string of decimal digits.
pub open spec fn digits_value(t: Seq<char>) -> int
    decreases t.len(),
{
    if t.len() == 0 {
        0
    } else {
        digits_value(t.drop_last()) * 10 + digit_value(t.last())
    }
}

/// The number that the text `t` spells in decimal, when it does and it is at
/// most `max`.
pub open spec fn parse_uint(t: Seq<char>, max: int) -> Option<int> {
    if t.len() > 0 && (forall|i: int| 0 <= i < t.len() ==> is_digit(t[i])) && digits_value(t)
        <= max {
        Some(digits_value(t))
    } else {
        None
    }
}

proof fn lemma_digit_char(d: nat)
    requires
        d < 10,
    ensures
        is_digit(digit_char(d)),
        digit_value(digit_char(d)) == d,
{
}

proof fn lemma_decimal(n: nat)
    ensures
        decimal(n).len() > 0,
        forall|i: int| 0 <= i < decimal(n).len() ==> is_digit(#[trigger] decimal(n)[i]),
        digits_value(decimal(n)) == n,
    decreases n,
{
    lemma_digit_char(n % 10);
    vstd::arithmetic::div_mod::lemma_fundamental_div_mod(n as int, 10);
    if n < 10 {
        assert(n % 10 == n);
        assert(decimal(n).drop_last() =~= Seq::<char>::empty());
        assert(digits_value(decimal(n)) == digits_value(Seq::<char>::empty()) * 10 + digit_value(
            digit_char(n),
        ));
    } else {
        lemma_decimal(n / 10);
        let p = decimal(n / 10);
        assert(decimal(n).drop_last() =~= p);
        assert(decimal(n).last() == digit_char(n % 10));
        assert(digits_value(decimal(n)) == (n / 10) as int * 10 + (n % 10) as int);
        assert forall|i: int| 0 <= i < decimal(n).len() implies is_digit(#[trigger] decimal(n)[i]) by {
            if i < p.len() {
                assert(decimal(n)[i] == p[i]);
            }
        }
    }
}

/// Reads a decimal number of at most `max`.
fn parse_uint_text(t: &str, max: u64) -> (r: Option<u64>)
    ensures
        match parse_uint(t@, max as int) {
            Some(v) => v >= 0 && r == Some(v as u64),
            None => r is None,
        },
{
    let len = t.unicode_len();
    if len == 0 {
        return None;
    }
    let mut v: u64 = 0;
    let mut over = false;
    let mut i: usize = 0;
    while i < len
        invariant
            0 <= i <= len,
            len == t@.len(),
            forall|j: int| 0 <= j < i ==> is_digit(t@[j]),
            over == (digits_value(t@.subrange(0, i as int)) > max),
            !over ==> v == digits_value(t@.subrange(0, i as int)),
            digits_value(t@.subrange(0, i as int)) >= 0,
        decreases len - i,
    {
        let c = t.get_char(i);
        if !('0' <= c && c <= '9') {
            return None;
        }
        let d = (c as u32 - '0' as u32) as u64;
        assert(t@.subrange(0, i + 1).drop_last() =~= t@.subrange(0, i as int));
        if !over {
            if d > max || v > (max - d) / 10 {
                proof {
                    if d <= max {
                        let x = (max - d) as int;
                        assert(v * 10 > x) by (nonlinear_arith)
                            requires
                                v > x / 10,
                                x >= 0,
                        ;
                    }
                }
                over = true;
            } else {
                proof {
                    let x = (max - d) as int;
                    assert(v * 10 <= x) by (nonlinear_arith)
                        requires
                            v <= x / 10,
                            x >= 0,
                    ;
                }
                v = v * 10 + d;
            }
        }
        i += 1;
    }
    assert(t@.subrange(0, len as int) =~= t@);
    if over {
        None
    } else {
        Some(v)
    }
}

/// The entry with key `k` of the object `j`.
pub open spec fn lookup(j: Json, k: Seq<char>) -> Option<Json> {
    match j {
        Json::Object(e) => {
            let i = find_key(e, k);
            if i >= 0 {
                Some(e[i].1)
            } else {
                None
            }
        },
        _ => None,
    }
}

/// The numbers of at most `max` that the array `j` holds, if it holds only
/// such numbers.
pub open spec fn uint_array(j: Option<Json>, max: int) -> Option<Seq<int>> {
    match j {
        Some(Json::Array(items)) => if forall|i: int|
            0 <= i < items.len() ==> (#[trigger] items[i] is Number && parse_uint(
                items[i]->Number_0,
                max,
            ) is Some) {
            Some(Seq::new(items.len(), |i: int| parse_uint(items[i]->Number_0, max)->Some_0))
        } else {
            None
        },
        _ => None,
    }
}

/// The data type named `t` in attribute files.
pub open spec fn data_type_named(t: Seq<char>) -> Option<DataType> {
    if t == DataType::UINT8.spec_name() {
        Some(DataType::UINT8)
    } else if t == DataType::UINT16.spec_name() {
        Some(DataType::UINT16)
    } else if t == DataType::UINT32.spec_name() {
        Some(DataType::UINT32)
    } else if t == DataType::UINT64.spec_name() {
        Some(DataType::UINT64)
    } else if t == DataType::INT8.spec_name() {
        Some(DataType::INT8)
    } else if t == DataType::INT16.spec_name() {
        Some(DataType::INT16)
    } else if t == DataType::INT32.spec_name() {
        Some(DataType::INT32)
    } else if t == DataType::INT64.spec_name() {
        Some(DataType::INT64)
    } else if t == DataType::FLOAT32.spec_name() {
        Some(DataType::FLOAT32)
    } else if t == DataType::FLOAT64.spec_name() {
        Some(DataType::FLOAT64)
    } else {
        None
    }
}

/// The compression scheme that the object `j` describes.
pub open spec fn compression_of(j: Option<Json>) -> Option<CompressionType> {
    match j {
        Some(c) => if lookup(c, "type"@) == Some(Json::Str("raw"@)) {
            Some(CompressionType::Raw(RawCompression {  }))
        } else {
            None
        },
        None => None,
    }
}

/// The dataset attributes that the attribute object `j` describes:
/// `InvalidData` when a field is missing or malformed or a block extent is
/// zero, `InvalidInput` when the axis counts differ.
pub open spec fn dataset_attributes_of(j: Json) -> Result<DatasetAttributesModel, N5Error> {
    let dims = uint_array(lookup(j, "dimensions"@), u64::MAX as int);
    let bs = uint_array(lookup(j, "blockSize"@), u32::MAX as int);
    let dt = match lookup(j, "dataType"@) {
        Some(Json::Str(t)) => data_type_named(t),
        _ => None,
    };
    let c = compression_of(lookup(j, "compression"@));
    if dims is None || bs is None || dt is None || c is None {
        Err(N5Error::InvalidData)
    } else if dims->Some_0.len() != bs->Some_0.len() {
        Err(N5Error::InvalidInput)
    } else if exists|i: int| 0 <= i < bs->Some_0.len() && bs->Some_0[i] == 0 {
        Err(N5Error::InvalidData)
    } else {
        Ok(
            DatasetAttributesModel {
                dimensions: dims->Some_0.map_values(|x: int| x as u64),
                block_size: bs->Some_0.map_values(|x: int| x as u32),
                data_type: dt->Some_0,
                compression: c->Some_0,
            },
        )
    }
}

/// The numbers of `s` as a JSON array.
pub open spec fn uint_json(s: Seq<int>) -> Json {
    Json::Array(Seq::new(s.len(), |i: int| Json::Number(decimal(s[i] as nat))))
}

/// The attribute object of a dataset.
pub open spec fn attributes_json(a: DatasetAttributesModel) -> Json {
    Json::Object(
        seq![
            ("dimensions"@, uint_json(ints_u64(a.dimensions))),
            ("blockSize"@, uint_json(ints_u32(a.block_size))),
            ("dataType"@, Json::Str(a.data_type.spec_name())),
            ("compression"@, Json::Object(seq![("type"@, Json::Str("raw"@))])),
        ],
    )
}

/// Whether no element of `v` is zero.
fn all_positive(v: &Vec<u64>) -> (r: bool)
    ensures
        r == !(exists|k: int| 0 <= k < v@.len() && ints_u64(v@)[k] == 0),
{
    let mut i: usize = 0;
    while i < v.len()
        invariant
            0 <= i <= v@.len(),
            forall|k: int| 0 <= k < i ==> v@[k] > 0,
        decreases v@.len() - i,
    {
        if v[i] == 0 {
            assert(ints_u64(v@)[i as int] == 0);
            return false;
        }
        i += 1;
    }
    true
}

/// Whether two texts are equal.
fn text_eq(a: &str, b: &str) -> (r: bool)
    ensures
        r == (a@ == b@),
{
    String::from_str(a) == String::from_str(b)
}

/// The data type named `t` in attribute files.
fn data_type_from_name(t: &str) -> (r: Option<DataType>)
    ensures
        r == data_type_named(t@),
{
    if text_eq(t, DataType::UINT8.name()) {
        Some(DataType::UINT8)
    } else if text_eq(t, DataType::UINT16.name()) {
        Some(DataType::UINT16)
    } else if text_eq(t, DataType::UINT32.name()) {
        Some(DataType::UINT32)
    } else if text_eq(t, DataType::UINT64.name()) {
        Some(DataType::UINT64)
    } else if text_eq(t, DataType::INT8.name()) {
        Some(DataType::INT8)
    } else if text_eq(t, DataType::INT16.name()) {
        Some(DataType::INT16)
    } else if text_eq(t, DataType::INT32.name()) {
        Some(DataType::INT32)
    } else if text_eq(t, DataType::INT64.name()) {
        Some(DataType::INT64)
    } else if text_eq(t, DataType::FLOAT32.name()) {
        Some(DataType::FLOAT32)
    } else if text_eq(t, DataType::FLOAT64.name()) {
        Some(DataType::FLOAT64)
    } else {
        None
    }
}

/// The entry with key `k` of the object `j`.
fn lookup_value<'a>(j: &'a JsonValue, k: &str) -> (r: Option<&'a JsonValue>)
    ensures
        match lookup(json_of(*j), k@) {
            Some(x) => r is Some && json_of(*r->Some_0) == x,
            None => r is None,
        },
{
    match j {
        JsonValue::Object(entries) => {
            proof {
                lemma_json_of_object(*entries);
            }
            let key = String::from_str(k);
            match find_entry(entries, &key) {
                Some(i) => Some(&entries[i].1),
                None => None,
            }
        },
        _ => None,
    }
}

/// The numbers of at most `max` that the array `j` holds.
fn uint_array_value(j: &JsonValue, max: u64) -> (r: Option<Vec<u64>>)
    ensures
        match uint_array(Some(json_of(*j)), max as int) {
            Some(s) => r is Some && ints_u64(r->Some_0@) == s,
            None => r is None,
        },
{
    match j {
        JsonValue::Array(items) => {
            proof {
                lemma_json_of_array(*items);
            }
            let ghost js = json_of(*j)->Array_0;
            assert(js.len() == items@.len());
            let mut out: Vec<u64> = Vec::new();
            let mut i: usize = 0;
            while i < items.len()
                invariant
                    0 <= i <= items@.len(),
                    *j == JsonValue::Array(*items),
                    json_of(*j) == Json::Array(js),
                    js.len() == items@.len(),
                    forall|k: int| 0 <= k < items@.len() ==> js[k] == json_of(items@[k]),
                    out@.len() == i,
                    forall|k: int|
                        0 <= k < i ==> (#[trigger] js[k] is Number && parse_uint(
                            js[k]->Number_0,
                            max as int,
                        ) is Some && out@[k] == parse_uint(js[k]->Number_0, max as int)->Some_0),
                decreases items@.len() - i,
            {
                match &items[i] {
                    JsonValue::Number(t) => {
                        assert(js[i as int] == Json::Number(t@));
                        match parse_uint_text(t.as_str(), max) {
                            Some(v) => {
                                out.push(v);
                            },
                            None => {
                                assert(!(parse_uint(js[i as int]->Number_0, max as int) is Some));
                                return None;
                            },
                        }
                    },
                    _ => {
                        assert(!(js[i as int] is Number));
                        return None;
                    },
                }
                i += 1;
            }
            assert(ints_u64(out@) =~= Seq::new(
                js.len(),
                |i: int| parse_uint(js[i]->Number_0, max as int)->Some_0,
            ));
            Some(out)
        },
        _ => None,
    }
}

/// The numbers of `s` as a JSON array of decimal numbers.
fn uint_values_json(s: &[u64]) -> (r: JsonValue)
    ensures
        json_of(r) == uint_json(ints_u64(s@)),
{
    let mut items: Vec<JsonValue> = Vec::new();
    let mut i: usize = 0;
    while i < s.len()
        invariant
            0 <= i <= s@.len(),
            items@.len() == i,
            forall|k: int|
                0 <= k < i ==> json_of(#[trigger] items@[k]) == Json::Number(decimal(s@[k] as nat)),
        decreases s@.len() - i,
    {
        let mut t = String::new();
        push_decimal(s[i], &mut t);
        assert(t@ =~= decimal(s@[i as int] as nat));
        items.push(JsonValue::Number(t));
        i += 1;
    }
    proof {
        lemma_json_of_array(items);
        assert(Seq::new(items@.len(), |k: int| json_of(items@[k])) =~= Seq::new(
            ints_u64(s@).len(),
            |k: int| Json::Number(decimal(ints_u64(s@)[k] as nat)),
        ));
    }
    JsonValue::Array(items)
}

impl DatasetAttributes {
    /// The attribute object of the dataset: `dimensions`, `blockSize`,
    /// `dataType` and `compression`.
    pub fn to_json(&self) -> (r: JsonValue)
        ensures
            json_of(r) == attributes_json(self@),
    {
        proof {
            reveal_strlit("dimensions");
            reveal_strlit("blockSize");
            reveal_strlit("dataType");
            reveal_strlit("compression");
            reveal_strlit("type");
        }
        let bs = self.block_size.as_slice();
        let mut wide: Vec<u64> = Vec::new();
        let mut i: usize = 0;
        while i < bs.len()
            invariant
                0 <= i <= bs@.len(),
                bs@ == self.block_size@,
                wide@.len() == i,
                forall|j: int| 0 <= j < i ==> wide@[j] == bs@[j],
            decreases bs@.len() - i,
        {
            wide.push(bs[i] as u64);
            i += 1;
        }
        assert(ints_u64(wide@) =~= ints_u32(self.block_size@));
        let mut comp: Vec<(String, JsonValue)> = Vec::new();
        comp.push(
            (String::from_str("type"), JsonValue::String(String::from_str(self.compression.scheme_name()))),
        );
        let mut entries: Vec<(String, JsonValue)> = Vec::new();
        entries.push((String::from_str("dimensions"), uint_values_json(self.dimensions.as_slice())));
        entries.push((String::from_str("blockSize"), uint_values_json(wide.as_slice())));
        entries.push((String::from_str("dataType"), JsonValue::String(String::from_str(self.data_type.name()))));
        entries.push((String::from_str("compression"), JsonValue::Object(comp)));
        proof {
            lemma_json_of_object(comp);
            lemma_json_of_object(entries);
            assert(entries_of(comp@) =~= seq![("type"@, Json::Str("raw"@))]);
            assert(entries_of(entries@) =~= attributes_json(self@)->Object_0);
        }
        JsonValue::Object(entries)
    }

    /// The dataset attributes that the attribute object `j` describes.
    /// Other entries of `j` are ignored.
    pub fn from_json(j: &JsonValue) -> (r: Result<DatasetAttributes, N5Error>)
        ensures
            match dataset_attributes_of(json_of(*j)) {
                Ok(m) => r is Ok && r->Ok_0@ == m,
                Err(e) => r is Err && r->Err_0 == e,
            },
    {
        proof {
            reveal_strlit("type");
            reveal_strlit("raw");
        }
        let dims = match lookup_value(j, "dimensions") {
            Some(v) => uint_array_value(v, u64::MAX),
            None => None,
        };
        let bs = match lookup_value(j, "blockSize") {
            Some(v) => uint_array_value(v, u32::MAX as u64),
            None => None,
        };
        let dt = match lookup_value(j, "dataType") {
            Some(JsonValue::String(t)) => data_type_from_name(t.as_str()),
            _ => None,
        };
        let comp = match lookup_value(j, "compression") {
            Some(c) => match lookup_value(c, "type") {
                Some(JsonValue::String(t)) => if text_eq(t.as_str(), "raw") {
                    Some(CompressionType::Raw(RawCompression {  }))
                } else {
                    None
                },
                _ => None,
            },
            None => None,
        };
        let (dims, bs, dt, comp) = match (dims, bs, dt, comp) {
            (Some(a), Some(b), Some(c), Some(d)) => (a, b, c, d),
            _ => {
                return Err(N5Error::InvalidData);
            },
        };
        if dims.len() != bs.len() {
            return Err(N5Error::InvalidInput);
        }
        assert forall|k: int| 0 <= k < bs@.len() implies bs@[k] <= u32::MAX by {
            assert(ints_u64(bs@)[k] == bs@[k] as int);
        }
        if !all_positive(&bs) {
            return Err(N5Error::InvalidData);
        }
        let mut block_size: Vec<u32> = Vec::new();
        let mut i: usize = 0;
        while i < bs.len()
            invariant
                0 <= i <= bs@.len(),
                forall|k: int| 0 <= k < bs@.len() ==> bs@[k] <= u32::MAX,
                block_size@.len() == i,
                forall|k: int| 0 <= k < i ==> block_size@[k] == bs@[k],
            decreases bs@.len() - i,
        {
            block_size.push(bs[i] as u32);
            i += 1;
        }
        let ghost dm = ints_u64(dims@);
        let ghost bm = ints_u64(bs@);
        assert(dims@ =~= dm.map_values(|x: int| x as u64));
        assert(block_size@ =~= bm.map_values(|x: int| x as u32));
        Ok(
            DatasetAttributes {
                dimensions: GridCoord::from_slice(dims.as_slice()),
                block_size: BlockCoord::from_slice(block_size.as_slice()),
                data_type: dt,
                compression: comp,
            },
        )
    }
}

proof fn lemma_data_type_named(dt: DataType)
    ensures
        data_type_named(dt.spec_name()) == Some(dt),
{
    reveal_strlit("uint8");
    reveal_strlit("uint16");
    reveal_strlit("uint32");
    reveal_strlit("uint64");
    reveal_strlit("int8");
    reveal_strlit("int16");
    reveal_strlit("int32");
    reveal_strlit("int64");
    reveal_strlit("float32");
    reveal_strlit("float64");
    match dt {
        DataType::UINT8 => {

        },
        DataType::UINT16 => {
            assert("uint16"@.len() != "uint8"@.len());
        },
        DataType::UINT32 => {
            assert("uint32"@.len() != "uint8"@.len());
            assert("uint32"@[4] != "uint16"@[4]);
        },
        DataType::UINT64 => {
            assert("uint64"@.len() != "uint8"@.len());
            assert("uint64"@[4] != "uint16"@[4]);
            assert("uint64"@[4] != "uint32"@[4]);
        },
        DataType::INT8 => {
            assert("int8"@.len() != "uint8"@.len());
            assert("int8"@.len() != "uint16"@.len());
            assert("int8"@.len() != "uint32"@.len());
            assert("int8"@.len() != "uint64"@.len());
        },
        DataType::INT16 => {
            assert("int16"@[0] != "uint8"@[0]);
            assert("int16"@.len() != "uint16"@.len());
            assert("int16"@.len() != "uint32"@.len());
            assert("int16"@.len() != "uint64"@.len());
            assert("int16"@.len() != "int8"@.len());
        },
        DataType::INT32 => {
            assert("int32"@[0] != "uint8"@[0]);
            assert("int32"@.len() != "uint16"@.len());
            assert("int32"@.len() != "uint32"@.len());
            assert("int32"@.len() != "uint64"@.len());
            assert("int32"@.len() != "int8"@.len());
            assert("int32"@[3] != "int16"@[3]);
        },
        DataType::INT64 => {
            assert("int64"@[0] != "uint8"@[0]);
            assert("int64"@.len() != "uint16"@.len());
            assert("int64"@.len() != "uint32"@.len());
            assert("int64"@.len() != "uint64"@.len());
            assert("int64"@.len() != "int8"@.len());
            assert("int64"@[3] != "int16"@[3]);
            assert("int64"@[3] != "int32"@[3]);
        },
        DataType::FLOAT32 => {
            assert("float32"@.len() != "uint8"@.len());
            assert("float32"@.len() != "uint16"@.len());
            assert("float32"@.len() != "uint32"@.len());
            assert("float32"@.len() != "uint64"@.len());
            assert("float32"@.len() != "int8"@.len());
            assert("float32"@.len() != "int16"@.len());
            assert("float32"@.len() != "int32"@.len());
            assert("float32"@.len() != "int64"@.len());
        },
        DataType::FLOAT64 => {
            assert("float64"@.len() != "uint8"@.len());
            assert("float64"@.len() != "uint16"@.len());
            assert("float64"@.len() != "uint32"@.len());
            assert("float64"@.len() != "uint64"@.len());
            assert("float64"@.len() != "int8"@.len());
            assert("float64"@.len() != "int16"@.len());
            assert("float64"@.len() != "int32"@.len());
            assert("float64"@.len() != "int64"@.len());
            assert("float64"@[5] != "float32"@[5]);
        },
    }
}

/// Reading the attribute object of a dataset gives back the dataset's
/// attributes.
pub proof fn lemma_attributes_json_round_trip(a: DatasetAttributesModel)
    requires
        a.wf(),
    ensures
        dataset_attributes_of(attributes_json(a)) == Ok::<DatasetAttributesModel, N5Error>(a),
{
    reveal_strlit("dimensions");
    reveal_strlit("blockSize");
    reveal_strlit("dataType");
    reveal_strlit("compression");
    reveal_strlit("type");
    reveal_strlit("raw");
    reveal_strlit("uint8");
    reveal_strlit("uint16");
    reveal_strlit("uint32");
    reveal_strlit("uint64");
    reveal_strlit("int8");
    reveal_strlit("int16");
    reveal_strlit("int32");
    reveal_strlit("int64");
    reveal_strlit("float32");
    reveal_strlit("float64");
    let j = attributes_json(a);
    let e = j->Object_0;
    assert(keys_unique(e)) by {
        assert(e[0].0.len() == 10 && e[1].0.len() == 9 && e[2].0.len() == 8 && e[3].0.len() == 11);
    }
    lemma_find_key_unique(e, 0);
    lemma_find_key_unique(e, 1);
    lemma_find_key_unique(e, 2);
    lemma_find_key_unique(e, 3);
    let ce = seq![("type"@, Json::Str("raw"@))];
    lemma_find_key_unique(ce, 0);
    assert(lookup(j, "dimensions"@) == Some(uint_json(ints_u64(a.dimensions))));
    assert(lookup(j, "blockSize"@) == Some(uint_json(ints_u32(a.block_size))));
    assert(lookup(j, "dataType"@) == Some(Json::Str(a.data_type.spec_name())));
    assert(lookup(j, "compression"@) == Some(Json::Object(seq![("type"@, Json::Str("raw"@))])));
    let dims = ints_u64(a.dimensions);
    let bs = ints_u32(a.block_size);
    assert forall|i: int| 0 <= i < dims.len() implies parse_uint(
        decimal(#[trigger] dims[i] as nat),
        u64::MAX as int,
    ) == Some(dims[i]) by {
        lemma_decimal(dims[i] as nat);
    }
    assert forall|i: int| 0 <= i < bs.len() implies parse_uint(
        decimal(#[trigger] bs[i] as nat),
        u32::MAX as int,
    ) == Some(bs[i]) by {
        lemma_decimal(bs[i] as nat);
    }
    let ud = uint_json(dims)->Array_0;
    let ub = uint_json(bs)->Array_0;
    assert forall|i: int| 0 <= i < ud.len() implies (#[trigger] ud[i] is Number && parse_uint(
        ud[i]->Number_0,
        u64::MAX as int,
    ) is Some) by {
        assert(ud[i] == Json::Number(decimal(dims[i] as nat)));
    }
    assert forall|i: int| 0 <= i < ub.len() implies (#[trigger] ub[i] is Number && parse_uint(
        ub[i]->Number_0,
        u32::MAX as int,
    ) is Some) by {
        assert(ub[i] == Json::Number(decimal(bs[i] as nat)));
    }
    let pd = uint_array(Some(uint_json(dims)), u64::MAX as int)->Some_0;
    let pb = uint_array(Some(uint_json(bs)), u32::MAX as int)->Some_0;
    assert(pd =~= dims);
    assert(pb =~= bs);
    assert(pd.map_values(|x: int| x as u64) =~= a.dimensions);
    assert(pb.map_values(|x: int| x as u32) =~= a.block_size);
    lemma_data_type_named(a.data_type);
    assert(compression_of(Some(Json::Object(seq![("type"@, Json::Str("raw"@))]))) == Some(
        a.compression,
    ));
}

} // verus!
