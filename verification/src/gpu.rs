//! The pure part of the GPU compositing path: packing filter parameters
//! in lexicographic name order, the 256-byte row alignment of the
//! readback buffer, compute dispatch counts, the ping-pong bookkeeping,
//! stripping row padding from the readback, and the order in which
//! layers are uploaded and blended. The device calls themselves happen
//! outside the library, following these results.

use vstd::arithmetic::div_mod::{
    lemma_div_pos_is_pos, lemma_fundamental_div_mod, lemma_fundamental_div_mod_converse,
    lemma_mod_multiples_basic,
};
use vstd::prelude::*;
use vstd::string::StringSliceAdditionalSpecFns;
use vstd::utf8::encode_utf8;

use crate::compositor::{stable_order, Layer};
use crate::config::FilterParam;
use crate::frame::area;
use crate::text::{lex_le, str_le};

verus! {

/// The UTF-8 byte keys of a parameter list.
pub open spec fn param_keys(params: Seq<FilterParam>) -> Seq<Seq<u8>> {
    params.map_values(|p: FilterParam| encode_utf8(p.name@))
}

/// Position at which a new index with key `k` is inserted into `ord`:
/// after every entry whose key is `<= k`, before every entry whose key
/// is greater.
pub open spec fn name_insert_pos(ord: Seq<int>, keys: Seq<Seq<u8>>, k: Seq<u8>) -> int
    decreases ord.len(),
{
    if ord.len() == 0 {
        0
    } else if lex_le(keys[ord.last()], k) {
        ord.len() as int
    } else {
        name_insert_pos(ord.drop_last(), keys, k)
    }
}

/// The sort order of the first `n` indices by their keys, ties keeping
/// the given order.
pub open spec fn name_order_upto(keys: Seq<Seq<u8>>, n: int) -> Seq<int>
    decreases n,
{
    if n <= 0 {
        Seq::empty()
    } else {
        let prev = name_order_upto(keys, n - 1);
        prev.insert(name_insert_pos(prev, keys, keys[n - 1]), n - 1)
    }
}

/// The order of all parameter indices by ascending name.
pub open spec fn name_order(keys: Seq<Seq<u8>>) -> Seq<int> {
    name_order_upto(keys, keys.len() as int)
}

/// Sort the parameter indices by name (UTF-8 byte order), ties keeping
/// the given order.
fn param_order(params: &Vec<FilterParam>) -> (ord: Vec<usize>)
    ensures
        ord@.map_values(|u: usize| u as int) == name_order(param_keys(params@)),
        ord@.len() == params@.len(),
        forall|k: int| 0 <= k < ord@.len() ==> #[trigger] ord@[k] < params@.len(),
{
    let ghost keys = param_keys(params@);
    let n: usize = params.len();
    let mut ord: Vec<usize> = Vec::new();
    let mut i: usize = 0;
    while i < n
        invariant
            i <= n,
            n == params@.len(),
            keys == param_keys(params@),
            ord@.len() == i,
            forall|k: int| 0 <= k < i ==> #[trigger] ord@[k] < i,
            ord@.map_values(|u: usize| u as int) == name_order_upto(keys, i as int),
        decreases n - i,
    {
        let ghost prev = ord@.map_values(|u: usize| u as int);
        let mut pos: usize = ord.len();
        proof {
            assert(prev.take(pos as int) =~= prev);
        }
        while pos > 0 && !str_le(params[ord[pos - 1]].name.as_str(), params[i].name.as_str())
            invariant
                pos <= ord@.len(),
                n == params@.len(),
                keys == param_keys(params@),
                prev == ord@.map_values(|u: usize| u as int),
                ord@.len() == i,
                i < n,
                forall|k: int| 0 <= k < i ==> #[trigger] ord@[k] < i,
                name_insert_pos(prev, keys, keys[i as int]) == name_insert_pos(
                    prev.take(pos as int),
                    keys,
                    keys[i as int],
                ),
            decreases pos,
        {
            proof {
                let t = prev.take(pos as int);
                assert(t.last() == prev[pos - 1]);
                assert(t.drop_last() =~= prev.take(pos - 1));
                assert(!lex_le(keys[prev[pos - 1]], keys[i as int]));
            }
            pos = pos - 1;
        }
        proof {
            let t = prev.take(pos as int);
            if pos == 0 {
                assert(t =~= Seq::<int>::empty());
            } else {
                assert(t.last() == prev[pos - 1]);
                assert(lex_le(keys[prev[pos - 1]], keys[i as int]));
            }
            assert(name_insert_pos(prev, keys, keys[i as int]) == pos);
        }
        ord.insert(pos, i);
        proof {
            assert(ord@.map_values(|u: usize| u as int) =~= prev.insert(pos as int, i as int));
            assert(name_order_upto(keys, i as int + 1) == prev.insert(
                name_insert_pos(prev, keys, keys[i as int]),
                i as int,
            ));
        }
        i = i + 1;
    }
    ord
}

/// Pack up to 16 filter parameter values into the uniform array slots,
/// sorted lexicographically by parameter name; unused slots are zero.
pub fn packed_param_bits(params: &Vec<FilterParam>) -> (r: Vec<u32>)
    requires
        params@.len() <= 16,
    ensures
        r@.len() == 16,
        forall|k: int|
            0 <= k < params@.len() ==> #[trigger] r@[k] == params@[name_order(
                param_keys(params@),
            )[k]].value_bits,
        forall|k: int| params@.len() <= k < 16 ==> #[trigger] r@[k] == 0,
{
    let ord = param_order(params);
    let mut r: Vec<u32> = Vec::new();
    let mut k: usize = 0;
    while k < 16
        invariant
            k <= 16,
            params@.len() <= 16,
            ord@.len() == params@.len(),
            forall|j: int| 0 <= j < ord@.len() ==> #[trigger] ord@[j] < params@.len(),
            ord@.map_values(|u: usize| u as int) == name_order(param_keys(params@)),
            r@.len() == k,
            forall|j: int|
                0 <= j < k && j < params@.len() ==> #[trigger] r@[j] == params@[name_order(
                    param_keys(params@),
                )[j]].value_bits,
            forall|j: int| params@.len() <= j < k ==> #[trigger] r@[j] == 0,
        decreases 16 - k,
    {
        if k < ord.len() {
            r.push(params[ord[k]].value_bits);
        } else {
            r.push(0);
        }
        k = k + 1;
    }
    r
}

/// Bytes per row of the GPU→CPU staging buffer: the row size rounded up
/// to the next multiple of 256, the common copy alignment.
pub fn padded_row_bytes(width: u32) -> (r: u32)
    requires
        4 * width + 255 <= u32::MAX,
    ensures
        r % 256 == 0,
        4 * width <= r < 4 * width + 256,
{
    let raw: u32 = width * 4 + 255;
    let r: u32 = (raw / 256) * 256;
    proof {
        let x = raw as int;
        lemma_fundamental_div_mod(x, 256);
        lemma_mod_multiples_basic(x / 256, 256);
        assert((256 * (x / 256)) % 256 == 0);
        assert(256 * (x / 256) == (x / 256) * 256) by (nonlinear_arith);
    }
    r
}

/// Number of 16-wide workgroups needed to cover `extent` texels.
pub fn dispatch_groups(extent: u32) -> (r: u32)
    requires
        extent + 15 <= u32::MAX,
    ensures
        16 * r >= extent,
        extent > 0 ==> 16 * (r - 1) < extent,
        extent > 0 ==> r >= 1,
{
    let r: u32 = (extent + 15) / 16;
    proof {
        let x = (extent + 15) as int;
        lemma_fundamental_div_mod(x, 16);
        if extent > 0 {
            lemma_div_pos_is_pos(x, 16);
        }
    }
    r
}

/// After running a chain of `passes` filters that alternate between the
/// two filter textures (starting by reading the first), the result sits
/// in the first texture exactly when the pass count is even.
pub fn filter_result_in_first(passes: usize) -> (r: bool)
    ensures
        r == (passes % 2 == 0),
{
    passes % 2 == 0
}

/// After blending `visible` layers ping-pong (the first pass reads the
/// cleared ping texture), the accumulated image sits in ping exactly
/// when the count is even.
pub fn accumulator_in_ping(visible: usize) -> (r: bool)
    ensures
        r == (visible % 2 == 0),
{
    visible % 2 == 0
}

/// The readback rows without their alignment padding: byte `k` of row
/// `y` comes from offset `y * padded_row + k` of the staging buffer.
pub open spec fn unpadded_bytes(data: Seq<u8>, width: int, height: int, padded_row: int) -> Seq<
    u8,
> {
    Seq::new(
        (4 * area(width, height)) as nat,
        |i: int| data[(i / (4 * width)) * padded_row + (i % (4 * width))],
    )
}

/// Strip the row padding from a staging-buffer readback.
pub fn unpad_rows(data: &Vec<u8>, width: u32, height: u32, padded_row: u32) -> (r: Vec<u8>)
    requires
        width > 0,
        padded_row >= 4 * width,
        data@.len() >= (height as int) * (padded_row as int),
        4 * area(width as int, height as int) <= usize::MAX,
    ensures
        r@ == unpadded_bytes(data@, width as int, height as int, padded_row as int),
{
    let ghost goal = unpadded_bytes(data@, width as int, height as int, padded_row as int);
    let dlen: usize = data.len();
    let row: usize = (width as usize) * 4;
    let mut r: Vec<u8> = Vec::new();
    let mut y: usize = 0;
    while y < height as usize
        invariant
            y <= height as int,
            row == 4 * (width as int),
            width > 0,
            padded_row >= 4 * width,
            data@.len() >= (height as int) * (padded_row as int),
            dlen == data@.len(),
            4 * area(width as int, height as int) <= usize::MAX,
            goal == unpadded_bytes(data@, width as int, height as int, padded_row as int),
            goal.len() == 4 * area(width as int, height as int),
            r@.len() == y * row,
            forall|j: int| 0 <= j < r@.len() ==> r@[j] == goal[j],
        decreases height - y,
    {
        proof {
            assert((y + 1) * (padded_row as int) <= (height as int) * (padded_row as int))
                by (nonlinear_arith)
                requires 0 <= y < height as int, padded_row > 0;
            assert(y * (padded_row as int) + (padded_row as int) == (y + 1) * (padded_row as int))
                by (nonlinear_arith);
            assert(y * row + row <= 4 * area(width as int, height as int)) by (nonlinear_arith)
                requires
                    0 <= y < height as int,
                    row == 4 * (width as int),
                    area(width as int, height as int) == (width as int) * (height as int),
            ;
        }
        let base: usize = y * (padded_row as usize);
        let mut k: usize = 0;
        while k < row
            invariant
                k <= row,
                y < height as int,
                row == 4 * (width as int),
                width > 0,
                padded_row >= 4 * width,
                base == y * (padded_row as int),
                base + row <= dlen,
                dlen == data@.len(),
                data@.len() >= (height as int) * (padded_row as int),
                goal == unpadded_bytes(data@, width as int, height as int, padded_row as int),
                goal.len() == 4 * area(width as int, height as int),
                y * row + row <= goal.len(),
                r@.len() == y * row + k,
                forall|j: int| 0 <= j < r@.len() ==> r@[j] == goal[j],
            decreases row - k,
        {
            r.push(data[base + k]);
            k = k + 1;
            proof {
                let j = y * row + k - 1;
                assert(j / (4 * (width as int)) == y as int && j % (4 * (width as int)) == k - 1)
                    by {
                    lemma_fundamental_div_mod_converse(j, 4 * (width as int), y as int, k - 1);
                }
                assert(r@[j] == goal[j]);
            }
        }
        y = y + 1;
        proof {
            assert((y - 1) * row + row == y * row) by (nonlinear_arith);
        }
    }
    proof {
        assert((height as int) * row == 4 * area(width as int, height as int))
            by (nonlinear_arith)
            requires
                row == 4 * (width as int),
                area(width as int, height as int) == (width as int) * (height as int),
        ;
        assert(r@ =~= goal);
    }
    r
}

/// The layers a GPU pass uploads and blends: those with opacity above 0,
/// in stable z order. Entries are indices into the given layer list.
pub open spec fn visible_of(layers: Seq<Layer>, ord: Seq<int>) -> Seq<int>
    decreases ord.len(),
{
    if ord.len() == 0 {
        Seq::empty()
    } else {
        visible_of(layers, ord.drop_last()) + if layers[ord.last()].opacity > 0 {
            seq![ord.last()]
        } else {
            Seq::empty()
        }
    }
}

/// The indices of the layers to upload and blend, in stable z order,
/// skipping fully transparent ones.
pub fn visible_in_order(layers: &Vec<Layer>) -> (vis: Vec<usize>)
    ensures
        vis@.map_values(|u: usize| u as int) == visible_of(
            layers@,
            stable_order(crate::compositor::layer_zs(layers@)),
        ),
        forall|k: int| 0 <= k < vis@.len() ==> #[trigger] vis@[k] < layers@.len(),
{
    let ord = crate::compositor::sorted_order(layers);
    let ghost ord_s = stable_order(crate::compositor::layer_zs(layers@));
    let n: usize = ord.len();
    let mut vis: Vec<usize> = Vec::new();
    let mut k: usize = 0;
    while k < n
        invariant
            k <= n,
            n == ord@.len(),
            n == layers@.len(),
            ord@.map_values(|u: usize| u as int) == ord_s,
            ord_s == stable_order(crate::compositor::layer_zs(layers@)),
            forall|j: int| 0 <= j < n ==> #[trigger] ord@[j] < n,
            vis@.map_values(|u: usize| u as int) == visible_of(layers@, ord_s.take(k as int)),
            forall|j: int| 0 <= j < vis@.len() ==> #[trigger] vis@[j] < n,
        decreases n - k,
    {
        let li: usize = ord[k];
        if layers[li].opacity > 0 {
            vis.push(li);
        }
        k = k + 1;
        proof {
            let t = ord_s.take(k as int);
            assert(t.drop_last() =~= ord_s.take(k as int - 1));
            assert(t.last() == ord_s[k as int - 1]);
            assert(vis@.map_values(|u: usize| u as int) =~= visible_of(layers@, t));
        }
    }
    proof {
        assert(ord_s.take(n as int) =~= ord_s);
    }
    vis
}

} // verus!
