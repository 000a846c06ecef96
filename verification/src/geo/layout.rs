//! The layout of a MaxMind DB file, as far as opening and searching it
//! safely needs: the metadata marker, the node count and record size that the
//! metadata gives, the records of the search tree, and the data section read
//! as a stream of values whose pointers lead back to complete values.
use vstd::prelude::*;

use crate::ip::{be_value, be_value_of};

verus! {

/// The bytes that open the metadata section: `\xab\xcd\xef` and `MaxMind.com`.
pub open spec fn marker() -> Seq<u8> {
    seq![0xabu8, 0xcdu8, 0xefu8, 0x4du8, 0x61u8, 0x78u8, 0x4du8, 0x69u8, 0x6eu8, 0x64u8, 0x2eu8, 0x63u8, 0x6fu8, 0x6du8]
}

/// The metadata marker starts at position `i` of `b`.
pub open spec fn marker_at(b: Seq<u8>, i: int) -> bool {
    0 <= i && i + 14 <= b.len() && b.subrange(i, i + 14) == marker()
}

/// The position of the last metadata marker in `b`, if there is one.
pub open spec fn last_marker(b: Seq<u8>) -> Option<int> {
    if exists|i: int| marker_at(b, i) {
        Some(choose|i: int| marker_at(b, i) && forall|j: int| i < j ==> !marker_at(b, j))
    } else {
        None
    }
}

/// The data type, the size and the position of the payload of the value
/// whose control byte is at `p`: the type is in the top three bits, or, when
/// they are zero, seven more than the next byte; a size field of 29, 30 or 31
/// is followed by one, two or three more bytes of size.
#[verifier::opaque]
pub open spec fn header(b: Seq<u8>, p: int) -> Option<(int, int, int)> {
    if 0 <= p < b.len() && !(b[p] / 32 == 0 && p + 1 >= b.len()) {
        let t0 = b[p] / 32;
        let s0 = b[p] % 32;
        let t = if t0 == 0 { b[p + 1] + 7 } else { t0 as int };
        let q = if t0 == 0 { p + 2 } else { p + 1 };
        if s0 < 29 {
            Some((t, s0 as int, q))
        } else if s0 == 29 {
            if q < b.len() { Some((t, 29 + b[q], q + 1)) } else { None }
        } else if s0 == 30 {
            if q + 1 < b.len() { Some((t, 285 + b[q] * 256 + b[q + 1], q + 2)) } else { None }
        } else {
            if q + 2 < b.len() {
                Some((t, 65821 + b[q] * 65536 + b[q + 1] * 256 + b[q + 2], q + 3))
            } else {
                None
            }
        }
    } else {
        None
    }
}

/// The open maps and arrays of `stack` (values still owed by each) without
/// those at the top that are complete.
pub open spec fn drop_done(stack: Seq<int>) -> Seq<int>
    decreases stack.len(),
{
    if stack.len() > 0 && stack.last() <= 0 {
        drop_done(stack.drop_last())
    } else {
        stack
    }
}

/// Where the values owed to the open maps and arrays of `stack` end, read
/// from `pos` as the reader skips them; `None` where a value is a pointer, of
/// a type the reader does not know, runs past the bytes, or lies deeper than
/// `max_depth`.
pub open spec fn skip_tokens(b: Seq<u8>, pos: int, stack: Seq<int>) -> Option<int>
    decreases b.len() - pos,
{
    if stack.len() == 0 {
        Some(pos)
    } else if stack.len() > max_depth() || pos >= b.len() {
        None
    } else {
        match token(b, pos, b.len() as int) {
            Some((e, c, tgt)) => if e <= pos || tgt is Some {
                None
            } else {
                let s1 = stack.drop_last().push(stack.last() - 1);
                let s2 = if c > 0 { s1.push(c as int) } else { s1 };
                skip_tokens(b, e, drop_done(s2))
            },
            None => None,
        }
    }
}

/// The end of the value at `p`, with the maps and arrays it holds, none of
/// them holding a pointer.
pub open spec fn skip_value(b: Seq<u8>, p: int) -> Option<int> {
    skip_tokens(b, p, seq![1int])
}

/// The unsigned integer (of type uint16, uint32 or uint64, at most eight
/// bytes) at `p`, and where it ends.
pub open spec fn read_uint(b: Seq<u8>, p: int) -> Option<(nat, int)> {
    match header(b, p) {
        Some((t, s, q)) => if (t == 5 || t == 6 || t == 9) && s <= 8 && q + s <= b.len() {
            Some((be_value(b.subrange(q, q + s)), q + s))
        } else {
            None
        },
        None => None,
    }
}

/// The metadata key `node_count`.
pub open spec fn node_count_key() -> Seq<u8> {
    seq![0x6eu8, 0x6fu8, 0x64u8, 0x65u8, 0x5fu8, 0x63u8, 0x6fu8, 0x75u8, 0x6eu8, 0x74u8]
}

/// The metadata key `record_size`.
pub open spec fn record_size_key() -> Seq<u8> {
    seq![0x72u8, 0x65u8, 0x63u8, 0x6fu8, 0x72u8, 0x64u8, 0x5fu8, 0x73u8, 0x69u8, 0x7au8, 0x65u8]
}

/// The node count and record size (their first occurrences) among the `n`
/// map entries from `p`, given those found before; `None` when an entry is
/// not a text key with a value that `skip_value` or `read_uint` reads.
#[verifier::opaque]
pub open spec fn scan_entries(b: Seq<u8>, p: int, n: nat, nc: Option<nat>, rs: Option<nat>) -> Option<
    (Option<nat>, Option<nat>),
>
    decreases n,
{
    if n == 0 {
        Some((nc, rs))
    } else {
        match header(b, p) {
            Some((t, s, q)) => if t == 2 && q + s <= b.len() {
                let key = b.subrange(q, q + s);
                if key == node_count_key() && nc is None {
                    match read_uint(b, q + s) {
                        Some((x, e)) => scan_entries(b, e, (n - 1) as nat, Some(x), rs),
                        None => None,
                    }
                } else if key == record_size_key() && rs is None {
                    match read_uint(b, q + s) {
                        Some((x, e)) => scan_entries(b, e, (n - 1) as nat, nc, Some(x)),
                        None => None,
                    }
                } else {
                    match skip_value(b, q + s) {
                        Some(e) => scan_entries(b, e, (n - 1) as nat, nc, rs),
                        None => None,
                    }
                }
            } else {
                None
            },
            None => None,
        }
    }
}

/// The node count and record size of the metadata map at `m`.
pub open spec fn metadata_numbers(b: Seq<u8>, m: int) -> Option<(Option<nat>, Option<nat>)> {
    match header(b, m) {
        Some((t, s, q)) => if t == 7 { scan_entries(b, q, s as nat, None, None) } else { None },
        None => None,
    }
}

/// The size in bytes of a search tree of `n` nodes with records of `rs` bits.
pub open spec fn tree_size(n: nat, rs: nat) -> int {
    if rs == 24 {
        (n * 6) as int
    } else if rs == 28 {
        (n * 7) as int
    } else {
        (n * 8) as int
    }
}

/// Record `idx` (0 or 1) of node `node`, read as `Reader::read_node` reads it.
pub open spec fn record(b: Seq<u8>, rs: nat, node: int, idx: int) -> int {
    if rs == 24 {
        let off = node * 6 + idx * 3;
        b[off] * 65536 + b[off + 1] * 256 + b[off + 2]
    } else if rs == 28 {
        let base = node * 7;
        let middle = if idx != 0 { b[base + 3] % 16 } else { b[base + 3] / 16 };
        let off = base + idx * 4;
        middle * 16777216 + b[off] * 65536 + b[off + 1] * 256 + b[off + 2]
    } else {
        let off = node * 8 + idx * 4;
        b[off] * 16777216 + b[off + 1] * 65536 + b[off + 2] * 256 + b[off + 3]
    }
}

/// Every record of the tree is a node, the empty record, or a pointer to the
/// data section (which starts sixteen past the node count).
#[verifier::opaque]
pub open spec fn records_ok(b: Seq<u8>, n: nat, rs: nat) -> bool {
    forall|node: int, idx: int|
        0 <= node < n && 0 <= idx < 2 ==> (#[trigger] record(b, rs, node, idx) <= n || record(
            b,
            rs,
            node,
            idx,
        ) >= n + 16)
}

/// The offset that a pointer of `n` payload bytes at `q`, with size field
/// `s`, points to, relative to the data section, as `Decoder::decode_pointer`
/// computes it.
pub open spec fn pointer_target(b: Seq<u8>, q: int, n: int, s: int) -> int {
    let base = if n == 4 { 0 } else { s % 8 };
    base * pow256(n as nat) + be_value(b.subrange(q, q + n)) + (if n == 2 {
        2048int
    } else if n == 3 {
        526336int
    } else {
        0int
    })
}

/// The value header at `pos`, read as a token of the data section that ends
/// at `hi`: where its own bytes end, how many values it opens (those of a map
/// or an array), and where it points when it is a pointer. `None` for a type
/// the reader does not know, and for bytes past `hi`.
pub open spec fn token(b: Seq<u8>, pos: int, hi: int) -> Option<(int, nat, Option<int>)> {
    match header(b, pos) {
        Some((t, s, q)) => if q > hi || t > 15 || t == 12 || t == 13 {
            None
        } else if t == 1 {
            let n = (s / 8) % 4 + 1;
            if q + n <= hi {
                Some((q + n, 0nat, Some(pointer_target(b, q, n, s))))
            } else {
                None
            }
        } else if t == 7 {
            Some((q, (2 * s) as nat, None))
        } else if t == 11 {
            Some((q, s as nat, None))
        } else if t == 14 {
            Some((q, 0nat, None))
        } else if q + s <= hi {
            Some((q + s, 0nat, None))
        } else {
            None
        },
        None => None,
    }
}

/// The deepest that skipping a value may go: the bound that the reader puts
/// on the nesting of values it decodes.
pub open spec fn max_depth() -> nat {
    512
}

/// How deep skipping a value goes: one for a value that holds no other, one
/// more than its deepest member for a map or an array, one more than its
/// target for a pointer.
/// The value at `s` ends with depth `d`, inside the open maps and arrays of
/// `stack` (start, values still owed, deepest member so far); `dm` gives the
/// depth of every value that has ended. `None` when a depth passes `max_depth`.
pub open spec fn close(stack: Seq<(int, int, int)>, dm: Map<int, nat>, s: int, d: nat) -> Option<
    (Seq<(int, int, int)>, Map<int, nat>),
>
    decreases stack.len(),
{
    if d > max_depth() {
        None
    } else if stack.len() == 0 {
        Some((stack, dm.insert(s, d)))
    } else {
        let top = stack.last();
        let md = if top.2 >= d { top.2 } else { d as int };
        if top.1 <= 1 {
            close(stack.drop_last(), dm.insert(s, d), top.0, (md + 1) as nat)
        } else {
            Some((stack.drop_last().push((top.0, top.1 - 1, md)), dm.insert(s, d)))
        }
    }
}

/// The token at `pos` that opens `c` values or points to `tgt`, taken into
/// `stack` and `dm`: a map or an array that holds values stays open; any other
/// value ends at once. A pointer must lead to a value of the data section
/// (from `lo`) that has already ended, so that following pointers always goes
/// back to values that are complete.
pub open spec fn step(lo: int, pos: int, c: nat, tgt: Option<int>, stack: Seq<(int, int, int)>, dm: Map<int, nat>) -> Option<
    (Seq<(int, int, int)>, Map<int, nat>),
> {
    if c > 0 {
        Some((stack.push((pos, c as int, 0)), dm))
    } else {
        match tgt {
            None => close(stack, dm, pos, 1),
            Some(x) => if dm.contains_key(lo + x) {
                close(stack, dm, pos, dm[lo + x] + 1)
            } else {
                None
            },
        }
    }
}

/// The data section (from `lo`) read from `pos` to `hi` as a stream of
/// values: the depth of every value, by where it starts; `None` when the
/// bytes do not read so.
#[verifier::opaque]
pub open spec fn walk(b: Seq<u8>, lo: int, pos: int, hi: int, stack: Seq<(int, int, int)>, dm: Map<int, nat>) -> Option<
    Map<int, nat>,
>
    decreases hi - pos,
{
    if pos >= hi {
        if pos == hi && stack.len() == 0 {
            Some(dm)
        } else {
            None
        }
    } else {
        match token(b, pos, hi) {
            Some((e, c, tgt)) => if e <= pos {
                None
            } else {
                match step(lo, pos, c, tgt, stack, dm) {
                    Some((s2, d2)) => walk(b, lo, e, hi, s2, d2),
                    None => None,
                }
            },
            None => None,
        }
    }
}

/// The data section from `lo` to `hi` reads as a stream of values, in which
/// every pointer leads back to a value that has ended and no value is deeper
/// than `max_depth`, and every tree record that the reader resolves leads to
/// the start of one of those values. So every header that the reader decodes
/// is one of them, and skipping a value (which follows pointers with no bound
/// of its own) ends, at most `max_depth` deep.
#[verifier::opaque]
pub open spec fn data_ok(b: Seq<u8>, lo: int, hi: int, n: nat, rs: nat) -> bool {
    match walk(b, lo, lo, hi, Seq::empty(), Map::empty()) {
        Some(dm) => forall|node: int, idx: int|
            0 <= node < n && 0 <= idx < 2 && #[trigger] record(b, rs, node, idx) >= n + 16 && record(
                b,
                rs,
                node,
                idx,
            ) - n - 16 < b.len() - lo ==> dm.contains_key(lo + record(b, rs, node, idx) - n - 16),
        None => false,
    }
}

/// Where the reader takes the node count `n` and the record size `rs`, the
/// search tree and the sixteen-byte separator lie before the metadata marker
/// at `i`, every record of the tree is in range, and the data section passes
/// `data_ok`.
pub open spec fn layout_ok(b: Seq<u8>, i: int, n: nat, rs: nat) -> bool {
    (n <= u32::MAX && (rs == 24 || rs == 28 || rs == 32)) ==> (tree_size(n, rs) + 16 <= i && records_ok(b, n, rs)
        && data_ok(b, tree_size(n, rs) + 16, i, n, rs))
}

/// The bytes can be handed to `maxminddb`: there is no metadata marker (the
/// reader refuses such bytes at once), or the metadata is a map that this
/// module reads and, where it gives a node count and a record size that the
/// reader takes, the search tree and the sixteen-byte separator lie before the
/// metadata, every record of the tree is in range, and the data section
/// passes `data_ok`.
pub open spec fn mmdb_safe(b: Seq<u8>) -> bool {
    match last_marker(b) {
        None => true,
        Some(i) => match metadata_numbers(b, i + 14) {
            Some((Some(n), Some(rs))) => layout_ok(b, i, n, rs),
            Some(_) => true,
            None => false,
        },
    }
}

/// Whether the metadata marker starts at `i`.
fn is_marker_at(b: &[u8], i: usize) -> (r: bool)
    requires
        i + 14 <= b@.len(),
    ensures
        r == marker_at(b@, i as int),
{
    let m: [u8; 14] = [0xab, 0xcd, 0xef, 0x4d, 0x61, 0x78, 0x4d, 0x69, 0x6e, 0x64, 0x2e, 0x63, 0x6f, 0x6d];
    assert(m@ =~= marker());
    let mut k: usize = 0;
    while k < 14
        invariant
            k <= 14,
            i + 14 <= b.len(),
            m@ == marker(),
            forall|j: int| 0 <= j < k ==> b@[i + j] == m@[j],
        decreases 14 - k,
    {
        if b[i + k] != m[k] {
            assert(b@.subrange(i as int, i + 14)[k as int] != marker()[k as int]);
            return false;
        }
        k = k + 1;
    }
    assert(b@.subrange(i as int, i + 14) =~= marker());
    true
}

/// The position of the last metadata marker; see `last_marker`.
fn find_last_marker(b: &[u8]) -> (r: Option<usize>)
    ensures
        match r {
            Some(i) => last_marker(b@) == Some(i as int) && i + 14 <= b.len(),
            None => last_marker(b@) is None,
        },
{
    if b.len() < 14 {
        assert(!exists|i: int| marker_at(b@, i));
        return None;
    }
    let mut i: usize = b.len() - 14;
    loop
        invariant
            i + 14 <= b@.len(),
            forall|j: int| i < j ==> !marker_at(b@, j),
        decreases i,
    {
        if is_marker_at(b, i) {
            let ghost g = i as int;
            assert(marker_at(b@, g) && forall|j: int| g < j ==> !marker_at(b@, j));
            assert forall|x: int|
                marker_at(b@, x) && (forall|j: int| x < j ==> !marker_at(b@, j)) implies x == g by {
                if x < g {
                    assert(!marker_at(b@, g));
                }
            }
            return Some(i);
        }
        if i == 0 {
            assert forall|j: int| !marker_at(b@, j) by {
                if j >= 0 {
                    assert(0 < j || j == 0);
                }
            }
            return None;
        }
        i = i - 1;
    }
}

/// The header of the value at `p`; see `header`.
fn read_header(b: &[u8], p: usize) -> (r: Option<(u32, usize, usize)>)
    ensures
        match r {
            Some((t, s, q)) => header(b@, p as int) == Some((t as int, s as int, q as int)) && q <= b@.len()
                && s < 0x200_0000,
            None => header(b@, p as int) is None,
        },
{
    reveal(header);
    if p >= b.len() {
        return None;
    }
    let c = b[p];
    let t0 = c / 32;
    let s0 = c % 32;
    if t0 == 0 && p + 1 >= b.len() {
        return None;
    }
    let t: u32 = if t0 == 0 { b[p + 1] as u32 + 7 } else { t0 as u32 };
    let q: usize = if t0 == 0 { p + 2 } else { p + 1 };
    if s0 < 29 {
        Some((t, s0 as usize, q))
    } else if s0 == 29 {
        if q < b.len() { Some((t, 29 + b[q] as usize, q + 1)) } else { None }
    } else if s0 == 30 {
        if b.len() - q > 1 { Some((t, 285 + b[q] as usize * 256 + b[q + 1] as usize, q + 2)) } else { None }
    } else {
        if b.len() - q > 2 {
            Some((t, 65821 + b[q] as usize * 65536 + b[q + 1] as usize * 256 + b[q + 2] as usize, q + 3))
        } else {
            None
        }
    }
}

/// The open maps and arrays of `v` as `skip_tokens` holds them.
pub open spec fn counts_view(v: Seq<u64>) -> Seq<int> {
    Seq::new(v.len(), |i: int| v[i] as int)
}

/// See `skip_value`.
fn skip_value_at(b: &[u8], p: usize) -> (r: Option<usize>)
    ensures
        match r {
            Some(e) => skip_value(b@, p as int) == Some(e as int),
            None => skip_value(b@, p as int) is None,
        },
{
    let mut stack: Vec<u64> = vec![1];
    assert(counts_view(stack@) =~= seq![1int]);
    let ghost goal = skip_value(b@, p as int);
    let mut pos = p;
    while stack.len() > 0
        invariant
            goal == skip_value(b@, p as int),
            skip_tokens(b@, pos as int, counts_view(stack@)) == goal,
            stack@.len() > 0 ==> stack@.last() >= 1,
        decreases b@.len() - pos,
    {
        if stack.len() > 512 || pos >= b.len() {
            return None;
        }
        let (e, c, tgt) = match read_token(b, pos, b.len()) {
            Some(t) => t,
            None => return None,
        };
        if e <= pos || tgt.is_some() {
            return None;
        }
        let ghost before = counts_view(stack@);
        let top = stack.pop().unwrap();
        stack.push(top - 1);
        if c > 0 {
            stack.push(c);
        }
        let ghost s2 = counts_view(stack@);
        assert(s2 =~= (if c > 0 {
            before.drop_last().push(before.last() - 1).push(c as int)
        } else {
            before.drop_last().push(before.last() - 1)
        }));
        while stack.len() > 0 && stack[stack.len() - 1] == 0
            invariant
                drop_done(counts_view(stack@)) == drop_done(s2),
            decreases stack@.len(),
        {
            let ghost v = counts_view(stack@);
            stack.pop();
            assert(counts_view(stack@) =~= v.drop_last());
        }
        assert(drop_done(counts_view(stack@)) == counts_view(stack@));
        pos = e;
    }
    assert(counts_view(stack@) =~= Seq::<int>::empty());
    Some(pos)
}

/// See `read_uint`.
fn read_uint_at(b: &[u8], p: usize) -> (r: Option<(u64, usize)>)
    ensures
        match r {
            Some((x, e)) => read_uint(b@, p as int) == Some((x as nat, e as int)),
            None => read_uint(b@, p as int) is None,
        },
{
    let (t, s, q) = match read_header(b, p) {
        Some(h) => h,
        None => return None,
    };
    if !((t == 5 || t == 6 || t == 9) && s <= 8 && s <= b.len() - q) {
        return None;
    }
    let bytes = vstd::slice::slice_subrange(b, q, q + s);
    let v = be_value_of(bytes);
    proof {
        lemma_be_value_bound(bytes@);
        lemma_pow256_le(bytes@.len(), 8);
        reveal_with_fuel(pow256, 9);
        assert(pow256(8) == 0x1_0000_0000_0000_0000);
    }
    Some((v as u64, q + s))
}

/// 256 to the power `n`.
pub open spec fn pow256(n: nat) -> nat
    decreases n,
{
    if n == 0 { 1 } else { 256 * pow256((n - 1) as nat) }
}

proof fn lemma_be_value_bound(s: Seq<u8>)
    ensures
        be_value(s) < pow256(s.len()),
    decreases s.len(),
{
    if s.len() > 0 {
        lemma_be_value_bound(s.drop_last());
        let v = be_value(s.drop_last());
        let p = pow256(s.drop_last().len());
        assert(v * 256 + s.last() < p * 256) by (nonlinear_arith)
            requires
                v < p,
                s.last() < 256,
        ;
    }
}

proof fn lemma_pow256_le(a: nat, b: nat)
    requires
        a <= b,
    ensures
        pow256(a) <= pow256(b),
    decreases b,
{
    if a < b {
        lemma_pow256_le(a, (b - 1) as nat);
    }
}

/// The view of an optional number.
pub open spec fn opt_nat(o: Option<u64>) -> Option<nat> {
    match o {
        Some(x) => Some(x as nat),
        None => None,
    }
}

/// Whether the `s` bytes at `q` are `key`.
fn bytes_are(b: &[u8], q: usize, s: usize, key: &[u8]) -> (r: bool)
    requires
        q + s <= b@.len(),
    ensures
        r == (b@.subrange(q as int, q + s) == key@),
{
    if s != key.len() {
        assert(b@.subrange(q as int, q + s).len() != key@.len());
        return false;
    }
    let mut k: usize = 0;
    while k < s
        invariant
            q + s <= b.len(),
            s == key@.len(),
            k <= s,
            forall|j: int| 0 <= j < k ==> b@[q + j] == key@[j],
        decreases s - k,
    {
        if b[q + k] != key[k] {
            assert(b@.subrange(q as int, q + s)[k as int] != key@[k as int]);
            return false;
        }
        k = k + 1;
    }
    assert(b@.subrange(q as int, q + s) =~= key@);
    true
}

/// See `scan_entries`, from no numbers found.
fn scan_metadata(b: &[u8], p: usize, n: usize) -> (r: Option<(Option<u64>, Option<u64>)>)
    ensures
        match r {
            Some((nc, rs)) => scan_entries(b@, p as int, n as nat, None, None) == Some(
                (opt_nat(nc), opt_nat(rs)),
            ),
            None => scan_entries(b@, p as int, n as nat, None, None) is None,
        },
{
    let node_count: [u8; 10] = [0x6e, 0x6f, 0x64, 0x65, 0x5f, 0x63, 0x6f, 0x75, 0x6e, 0x74];
    let record_size: [u8; 11] = [0x72, 0x65, 0x63, 0x6f, 0x72, 0x64, 0x5f, 0x73, 0x69, 0x7a, 0x65];
    assert(node_count@ =~= node_count_key());
    assert(record_size@ =~= record_size_key());
    let mut pos = p;
    let mut k: usize = n;
    let mut nc: Option<u64> = None;
    let mut rs: Option<u64> = None;
    reveal(scan_entries);
    while k > 0
        invariant
            node_count@ == node_count_key(),
            record_size@ == record_size_key(),
            scan_entries(b@, p as int, n as nat, None, None) == scan_entries(
                b@,
                pos as int,
                k as nat,
                opt_nat(nc),
                opt_nat(rs),
            ),
        decreases k,
    {
        proof {
            reveal(scan_entries);
        }
        let (t, s, q) = match read_header(b, pos) {
            Some(h) => h,
            None => return None,
        };
        if t != 2 || s > b.len() - q {
            return None;
        }
        let v = q + s;
        if bytes_are(b, q, s, node_count.as_slice()) && nc.is_none() {
            match read_uint_at(b, v) {
                Some((x, e)) => {
                    nc = Some(x);
                    pos = e;
                },
                None => return None,
            }
        } else if bytes_are(b, q, s, record_size.as_slice()) && rs.is_none() {
            match read_uint_at(b, v) {
                Some((x, e)) => {
                    rs = Some(x);
                    pos = e;
                },
                None => return None,
            }
        } else {
            match skip_value_at(b, v) {
                Some(e) => pos = e,
                None => return None,
            }
        }
        k = k - 1;
    }
    Some((nc, rs))
}

/// See `record`.
fn record_at(b: &[u8], rs: u64, n: u64, node: u64, idx: u64) -> (r: u64)
    requires
        rs == 24 || rs == 28 || rs == 32,
        node < n,
        idx < 2,
        tree_size(n as nat, rs as nat) <= b.len(),
    ensures
        r == record(b@, rs as nat, node as int, idx as int),
{
    if rs == 24 {
        let off = (node * 6 + idx * 3) as usize;
        b[off] as u64 * 65536 + b[off + 1] as u64 * 256 + b[off + 2] as u64
    } else if rs == 28 {
        let base = (node * 7) as usize;
        let middle: u64 = if idx != 0 { (b[base + 3] % 16) as u64 } else { (b[base + 3] / 16) as u64 };
        let off = base + (idx * 4) as usize;
        middle * 16777216 + b[off] as u64 * 65536 + b[off + 1] as u64 * 256 + b[off + 2] as u64
    } else {
        let off = (node * 8 + idx * 4) as usize;
        b[off] as u64 * 16777216 + b[off + 1] as u64 * 65536 + b[off + 2] as u64 * 256 + b[off + 3] as u64
    }
}

/// See `records_ok`.
fn check_records(b: &[u8], n: u64, rs: u64) -> (r: bool)
    requires
        rs == 24 || rs == 28 || rs == 32,
        tree_size(n as nat, rs as nat) <= b@.len(),
    ensures
        r == records_ok(b@, n as nat, rs as nat),
{
    reveal(records_ok);
    let mut node: u64 = 0;
    while node < n
        invariant
            rs == 24 || rs == 28 || rs == 32,
            tree_size(n as nat, rs as nat) <= b@.len(),
            node <= n,
            forall|x: int, i: int|
                0 <= x < node && 0 <= i < 2 ==> (#[trigger] record(b@, rs as nat, x, i) <= n || record(
                    b@,
                    rs as nat,
                    x,
                    i,
                ) >= n + 16),
        decreases n - node,
    {
        let mut idx: u64 = 0;
        while idx < 2
            invariant
                rs == 24 || rs == 28 || rs == 32,
                tree_size(n as nat, rs as nat) <= b@.len(),
                node < n,
                idx <= 2,
                forall|x: int, i: int|
                    (0 <= x < node && 0 <= i < 2 || x == node && 0 <= i < idx) ==> (#[trigger] record(
                        b@,
                        rs as nat,
                        x,
                        i,
                    ) <= n || record(b@, rs as nat, x, i) >= n + 16),
            decreases 2 - idx,
        {
            let v = record_at(b, rs, n, node, idx);
            if !(v <= n || v >= n + 16) {
                assert(!records_ok(b@, n as nat, rs as nat)) by {
                    reveal(records_ok);
                    assert(record(b@, rs as nat, node as int, idx as int) == v);
                }
                return false;
            }
            idx = idx + 1;
        }
        node = node + 1;
    }
    true
}

/// Whether the bytes can be handed to `maxminddb`; see `mmdb_safe`.
#[verifier::rlimit(40)]
pub fn check_mmdb(b: &[u8]) -> (r: bool)
    ensures
        r == mmdb_safe(b@),
{
    let i = match find_last_marker(b) {
        Some(i) => i,
        None => return true,
    };
    let (t, s, q) = match read_header(b, i + 14) {
        Some(h) => h,
        None => return false,
    };
    if t != 7 {
        return false;
    }
    assert(metadata_numbers(b@, i + 14) == scan_entries(b@, q as int, s as nat, None, None));
    let (nc, rs) = match scan_metadata(b, q, s) {
        Some(found) => found,
        None => return false,
    };
    match (nc, rs) {
        (Some(n), Some(rs)) => check_tree(b, i, n, rs),
        _ => true,
    }
}

/// See `layout_ok`.
fn check_tree(b: &[u8], i: usize, n: u64, rs: u64) -> (r: bool)
    requires
        i + 14 <= b@.len(),
    ensures
        r == layout_ok(b@, i as int, n as nat, rs as nat),
{
    if !(n <= u32::MAX as u64 && (rs == 24 || rs == 28 || rs == 32)) {
        return true;
    }
    let size: u64 = if rs == 24 { n * 6 } else if rs == 28 { n * 7 } else { n * 8 };
    if size + 16 > i as u64 {
        return false;
    }
    check_records(b, n, rs) && check_data(b, (size + 16) as usize, i, n, rs)
}

/// The depths that `dv` records from `lo`; zero marks a position where no
/// value has ended.
pub open spec fn depth_map(dv: Seq<u16>, lo: int) -> Map<int, nat> {
    Map::new(|k: int| lo <= k < lo + dv.len() && dv[k - lo] > 0, |k: int| dv[k - lo] as nat)
}

/// The open maps and arrays of `v` as `walk` holds them.
pub open spec fn stack_view(v: Seq<(u64, u64, u64)>) -> Seq<(int, int, int)> {
    Seq::new(v.len(), |i: int| (v[i].0 as int, v[i].1 as int, v[i].2 as int))
}

/// See `data_ok`.
fn check_data(b: &[u8], lo: usize, hi: usize, n: u64, rs: u64) -> (r: bool)
    requires
        lo <= hi <= b@.len(),
        rs == 24 || rs == 28 || rs == 32,
        tree_size(n as nat, rs as nat) <= lo,
    ensures
        r == data_ok(b@, lo as int, hi as int, n as nat, rs as nat),
{
    proof {
        reveal(data_ok);
    }
    let dv = match walk_data(b, lo, hi) {
        Some(w) => w,
        None => return false,
    };
    let ghost dm = depth_map(dv@, lo as int);
    let mut node: u64 = 0;
    while node < n
        invariant
            rs == 24 || rs == 28 || rs == 32,
            tree_size(n as nat, rs as nat) <= lo,
            lo <= hi <= b@.len(),
            dv@.len() == hi - lo,
            dm == depth_map(dv@, lo as int),
            walk(b@, lo as int, lo as int, hi as int, Seq::empty(), Map::empty()) == Some(dm),
            node <= n,
            forall|x: int, i: int|
                0 <= x < node && 0 <= i < 2 && #[trigger] record(b@, rs as nat, x, i) >= n + 16 && record(
                    b@,
                    rs as nat,
                    x,
                    i,
                ) - n - 16 < b@.len() - lo ==> dm.contains_key(lo + record(b@, rs as nat, x, i) - n - 16),
        decreases n - node,
    {
        let mut idx: u64 = 0;
        while idx < 2
            invariant
                rs == 24 || rs == 28 || rs == 32,
                tree_size(n as nat, rs as nat) <= lo,
                lo <= hi <= b@.len(),
                dv@.len() == hi - lo,
                dm == depth_map(dv@, lo as int),
                walk(b@, lo as int, lo as int, hi as int, Seq::empty(), Map::empty()) == Some(dm),
                node < n,
                idx <= 2,
                forall|x: int, i: int|
                    (0 <= x < node && 0 <= i < 2 || x == node && 0 <= i < idx) && #[trigger] record(
                        b@,
                        rs as nat,
                        x,
                        i,
                    ) >= n + 16 && record(b@, rs as nat, x, i) - n - 16 < b@.len() - lo ==> dm.contains_key(
                        lo + record(b@, rs as nat, x, i) - n - 16,
                    ),
            decreases 2 - idx,
        {
            let v = record_at(b, rs, n, node, idx);
            if v >= n + 16 && v - n - 16 < (b.len() - lo) as u64 {
                let x = v - n - 16;
                if x >= (hi - lo) as u64 || dv[x as usize] == 0 {
                    proof {
                        assert(record(b@, rs as nat, node as int, idx as int) == v);
                    }
                    assert(!dm.contains_key(lo + x as int));
                    proof {
                        reveal(data_ok);
                    }
                    return false;
                }
            }
            idx = idx + 1;
        }
        node = node + 1;
    }
    true
}

/// See `token`.
fn read_token(b: &[u8], pos: usize, hi: usize) -> (r: Option<(usize, u64, Option<u64>)>)
    requires
        hi <= b@.len(),
    ensures
        match r {
            Some((e, c, tgt)) => token(b@, pos as int, hi as int) == Some(
                (
                    e as int,
                    c as nat,
                    match tgt {
                        Some(x) => Some(x as int),
                        None => None,
                    },
                ),
            ) && c < 0x400_0000,
            None => token(b@, pos as int, hi as int) is None,
        },
{
    let (t, s, q) = match read_header(b, pos) {
        Some(h) => h,
        None => return None,
    };
    if q > hi || t > 15 || t == 12 || t == 13 {
        return None;
    }
    if t == 1 {
        let n: usize = (s / 8) % 4 + 1;
        if n > hi - q {
            return None;
        }
        let bytes = vstd::slice::slice_subrange(b, q, q + n);
        let v = be_value_of(bytes);
        proof {
            lemma_be_value_bound(bytes@);
            lemma_pow256_le(n as nat, 4);
            reveal_with_fuel(pow256, 5);
            assert(pow256(4) == 0x1_0000_0000);
        }
        let base: u64 = if n == 4 { 0 } else { (s % 8) as u64 };
        let scale: u64 = if n == 1 { 0x100 } else if n == 2 { 0x1_0000 } else if n == 3 { 0x100_0000 } else { 0x1_0000_0000 };
        let offset: u64 = if n == 2 { 2048 } else if n == 3 { 526336 } else { 0 };
        proof {
            reveal_with_fuel(pow256, 5);
        }
        proof {
            assert(base * scale <= 7 * 0x1_0000_0000) by (nonlinear_arith)
                requires
                    base <= 7,
                    scale <= 0x1_0000_0000,
            ;
            assert(scale as nat == pow256(n as nat));
        }
        let target = base * scale + v as u64 + offset;
        return Some((q + n, 0, Some(target)));
    }
    if t == 7 {
        Some((q, 2 * s as u64, None))
    } else if t == 11 {
        Some((q, s as u64, None))
    } else if t == 14 {
        Some((q, 0, None))
    } else if s <= hi - q {
        Some((q + s, 0, None))
    } else {
        None
    }
}

/// Ends the value at `s` with depth `d` as `close` does, in `stk` and `dv`.
fn close_at(stk: &mut Vec<(u64, u64, u64)>, dv: &mut Vec<u16>, lo: usize, s: usize, d: u64) -> (ok: bool)
    requires
        lo <= s < lo + old(dv)@.len(),
        lo + old(dv)@.len() <= usize::MAX,
        1 <= d,
        forall|i: int|
            0 <= i < old(stk)@.len() ==> lo <= (#[trigger] old(stk)@[i]).0 < lo + old(dv)@.len() && 1 <= old(
                stk,
            )@[i].1 && old(stk)@[i].2 <= max_depth(),
    ensures
        final(dv)@.len() == old(dv)@.len(),
        forall|i: int|
            0 <= i < final(stk)@.len() ==> lo <= (#[trigger] final(stk)@[i]).0 < lo + final(dv)@.len() && 1
                <= final(stk)@[i].1 && final(stk)@[i].2 <= max_depth(),
        final(stk)@.len() <= old(stk)@.len(),
        match close(stack_view(old(stk)@), depth_map(old(dv)@, lo as int), s as int, d as nat) {
            Some((s2, m2)) => ok && stack_view(final(stk)@) == s2 && depth_map(final(dv)@, lo as int) == m2,
            None => !ok,
        },
{
    let ghost goal = close(stack_view(old(stk)@), depth_map(old(dv)@, lo as int), s as int, d as nat);
    let mut cs = s;
    let mut cd = d;
    loop
        invariant
            lo <= cs < lo + dv@.len(),
            lo + dv@.len() <= usize::MAX,
            dv@.len() == old(dv)@.len(),
            1 <= cd,
            goal == close(stack_view(old(stk)@), depth_map(old(dv)@, lo as int), s as int, d as nat),
            stk@.len() <= old(stk)@.len(),
            forall|i: int|
                0 <= i < stk@.len() ==> lo <= (#[trigger] stk@[i]).0 < lo + dv@.len() && 1 <= stk@[i].1
                    && stk@[i].2 <= max_depth(),
            close(stack_view(stk@), depth_map(dv@, lo as int), cs as int, cd as nat) == goal,
        decreases stk@.len(),
    {
        if cd > 512 {
            return false;
        }
        let ghost old_dv = dv@;
        let ghost old_stk = stk@;
        dv.set(cs - lo, cd as u16);
        assert(depth_map(dv@, lo as int) =~= depth_map(old_dv, lo as int).insert(cs as int, cd as nat));
        if stk.len() == 0 {
            assert(stack_view(stk@) =~= Seq::<(int, int, int)>::empty());
            return true;
        }
        let top = stk.pop().unwrap();
        assert(old_stk[old_stk.len() - 1] == top);
        assert(lo <= top.0 < lo + dv@.len() && 1 <= top.1 && top.2 <= max_depth());
        assert(stack_view(old_stk).last() == (top.0 as int, top.1 as int, top.2 as int));
        assert(stack_view(old_stk).drop_last() =~= stack_view(stk@));
        let md: u64 = if top.2 >= cd { top.2 } else { cd };
        if top.1 <= 1 {
            cs = top.0 as usize;
            cd = md + 1;
        } else {
            stk.push((top.0, top.1 - 1, md));
            assert(stack_view(stk@) =~= stack_view(old_stk).drop_last().push((top.0 as int, top.1 - 1, md as int)));
            return true;
        }
    }
}

/// Reads the data section from `lo` to `hi` as `walk` does: the depth of
/// every value, by where it starts, as `depth_map` reads it.
fn walk_data(b: &[u8], lo: usize, hi: usize) -> (r: Option<Vec<u16>>)
    requires
        lo <= hi <= b@.len(),
    ensures
        match r {
            Some(dv) => dv@.len() == hi - lo && walk(b@, lo as int, lo as int, hi as int, Seq::empty(), Map::empty())
                == Some(depth_map(dv@, lo as int)),
            None => walk(b@, lo as int, lo as int, hi as int, Seq::empty(), Map::empty()) is None,
        },
{
    let mut dv: Vec<u16> = Vec::new();
    let mut k: usize = lo;
    while k < hi
        invariant
            lo <= k <= hi,
            dv@.len() == k - lo,
            forall|j: int| 0 <= j < dv@.len() ==> dv@[j] == 0,
        decreases hi - k,
    {
        dv.push(0);
        k = k + 1;
    }
    assert(depth_map(dv@, lo as int) =~= Map::<int, nat>::empty());
    let mut stk: Vec<(u64, u64, u64)> = Vec::new();
    assert(stack_view(stk@) =~= Seq::<(int, int, int)>::empty());
    let ghost goal = walk(b@, lo as int, lo as int, hi as int, Seq::empty(), Map::empty());
    let mut pos: usize = lo;
    while pos < hi
        invariant
            lo <= pos <= hi <= b@.len(),
            dv@.len() == hi - lo,
            forall|i: int|
                0 <= i < stk@.len() ==> lo <= (#[trigger] stk@[i]).0 < lo + dv@.len() && 1 <= stk@[i].1
                    && stk@[i].2 <= max_depth(),
            goal == walk(b@, lo as int, lo as int, hi as int, Seq::empty(), Map::empty()),
            walk(b@, lo as int, pos as int, hi as int, stack_view(stk@), depth_map(dv@, lo as int)) == goal,
        decreases hi - pos,
    {
        proof {
            reveal(walk);
        }
        let (e, c, tgt) = match read_token(b, pos, hi) {
            Some(t) => t,
            None => return None,
        };
        if e <= pos {
            return None;
        }
        if c > 0 {
            let ghost old_stk = stk@;
            stk.push((pos as u64, c, 0));
            assert(stack_view(stk@) =~= stack_view(old_stk).push((pos as int, c as int, 0int)));
        } else {
            let d: u64 = match tgt {
                None => 1,
                Some(x) => {
                    if x >= (hi - lo) as u64 || dv[x as usize] == 0 {
                        assert(!depth_map(dv@, lo as int).contains_key(lo + x as int));
                        return None;
                    }
                    assert(depth_map(dv@, lo as int)[lo + x as int] == dv@[x as int] as nat);
                    dv[x as usize] as u64 + 1
                },
            };
            if !close_at(&mut stk, &mut dv, lo, pos, d) {
                return None;
            }
        }
        pos = e;
    }
    if stk.len() != 0 {
        proof {
            reveal(walk);
        }
        return None;
    }
    proof {
        reveal(walk);
        assert(stack_view(stk@) =~= Seq::<(int, int, int)>::empty());
    }
    Some(dv)
}

} // verus!
