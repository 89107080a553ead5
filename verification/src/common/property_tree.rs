//! The binary property-tree format of Factorio's `mod-settings.dat`.
//!
//! Numbers are IEEE-754 doubles in the file; this module carries them as the
//! `u64` bit pattern of the double, so that every byte written is the byte
//! that was read.

use vstd::bytes::*;
use vstd::prelude::*;
use vstd::slice::*;
use vstd::utf8::*;

verus! {

broadcast use vstd::utf8::group_utf8_lib;

// ---------------------------------------------------------------------------
// Property trees
// ---------------------------------------------------------------------------
/// The type tags of the property-tree format.
#[derive(Clone, Copy, Debug, PartialEq, Eq)]
pub enum PropertyTreeType {
    Nil,
    Bool,
    Number,
    String,
    List,
    Dictionary,
    SignedInteger,
    UnsignedInteger,
}

/// The byte that encodes a type tag.
pub open spec fn type_code(t: PropertyTreeType) -> u8 {
    match t {
        PropertyTreeType::Nil => 0,
        PropertyTreeType::Bool => 1,
        PropertyTreeType::Number => 2,
        PropertyTreeType::String => 3,
        PropertyTreeType::List => 4,
        PropertyTreeType::Dictionary => 5,
        PropertyTreeType::SignedInteger => 6,
        PropertyTreeType::UnsignedInteger => 7,
    }
}

/// A property tree. `Number` holds the bits of an `f64`.
#[derive(Debug)]
pub enum PropertyTree {
    Nil,
    Bool(bool),
    Number(u64),
    String(String),
    List(Vec<PropertyTree>),
    Dictionary(Vec<(String, PropertyTree)>),
    SignedInteger(i64),
    UnsignedInteger(u64),
}

/// The mathematical value of a property tree.
pub enum TreeModel {
    Nil,
    Bool(bool),
    Number(u64),
    Str(Seq<char>),
    List(Seq<TreeModel>),
    Dict(Seq<(Seq<char>, TreeModel)>),
    Signed(i64),
    Unsigned(u64),
}

impl PropertyTree {
    pub open spec fn model(self) -> TreeModel
        decreases self,
    {
        match self {
            PropertyTree::Nil => TreeModel::Nil,
            PropertyTree::Bool(b) => TreeModel::Bool(b),
            PropertyTree::Number(n) => TreeModel::Number(n),
            PropertyTree::String(s) => TreeModel::Str(s@),
            PropertyTree::List(v) => TreeModel::List(models(v@)),
            PropertyTree::Dictionary(d) => TreeModel::Dict(entry_models(d@)),
            PropertyTree::SignedInteger(i) => TreeModel::Signed(i),
            PropertyTree::UnsignedInteger(u) => TreeModel::Unsigned(u),
        }
    }
}

/// The models of a sequence of trees.
pub open spec fn models(s: Seq<PropertyTree>) -> Seq<TreeModel>
    decreases s,
{
    if s.len() == 0 {
        Seq::empty()
    } else {
        models(s.drop_last()).push(s.last().model())
    }
}

/// The models of a sequence of dictionary entries.
pub open spec fn entry_models(s: Seq<(String, PropertyTree)>) -> Seq<(Seq<char>, TreeModel)>
    decreases s,
{
    if s.len() == 0 {
        Seq::empty()
    } else {
        entry_models(s.drop_last()).push((s.last().0@, s.last().1.model()))
    }
}

pub proof fn lemma_models(s: Seq<PropertyTree>)
    ensures
        models(s).len() == s.len(),
        forall|i: int| 0 <= i < s.len() ==> #[trigger] models(s)[i] == s[i].model(),
    decreases s.len(),
{
    if s.len() > 0 {
        lemma_models(s.drop_last());
    }
}

pub proof fn lemma_entry_models(s: Seq<(String, PropertyTree)>)
    ensures
        entry_models(s).len() == s.len(),
        forall|i: int|
            0 <= i < s.len() ==> #[trigger] entry_models(s)[i] == (s[i].0@, s[i].1.model()),
    decreases s.len(),
{
    if s.len() > 0 {
        lemma_entry_models(s.drop_last());
    }
}

// ---------------------------------------------------------------------------
// Encoding
// ---------------------------------------------------------------------------
/// A byte length as the format writes it: one byte below 255, else 255 and
/// the length as a little-endian `u32`.
pub open spec fn enc_len(n: nat) -> Seq<u8> {
    if n < 255 {
        seq![n as u8]
    } else {
        seq![255u8] + spec_u32_to_le_bytes(n as u32)
    }
}

/// A string as the format writes it: `1` for the empty string, else `0`, the
/// UTF-8 length and the UTF-8 bytes.
pub open spec fn enc_string(s: Seq<char>) -> Seq<u8> {
    if s.len() == 0 {
        seq![1u8]
    } else {
        seq![0u8] + enc_len(encode_utf8(s).len()) + encode_utf8(s)
    }
}

/// The bytes of a tree: a type tag, a zero byte, then the payload.
pub open spec fn enc_tree(t: TreeModel) -> Seq<u8>
    decreases t,
{
    match t {
        TreeModel::Nil => seq![0u8, 0u8],
        TreeModel::Bool(b) => seq![1u8, 0u8, if b { 1u8 } else { 0u8 }],
        TreeModel::Number(x) => seq![2u8, 0u8] + spec_u64_to_le_bytes(x),
        TreeModel::Str(s) => seq![3u8, 0u8] + enc_string(s),
        TreeModel::List(items) => seq![4u8, 0u8] + spec_u32_to_le_bytes(items.len() as u32)
            + enc_items(items),
        TreeModel::Dict(entries) => seq![5u8, 0u8] + spec_u32_to_le_bytes(entries.len() as u32)
            + enc_entries(entries),
        TreeModel::Signed(i) => seq![6u8, 0u8] + spec_u64_to_le_bytes(i as u64),
        TreeModel::Unsigned(u) => seq![7u8, 0u8] + spec_u64_to_le_bytes(u),
    }
}

/// List items: each an empty key followed by the item.
pub open spec fn enc_items(s: Seq<TreeModel>) -> Seq<u8>
    decreases s,
{
    if s.len() == 0 {
        Seq::empty()
    } else {
        seq![1u8] + enc_tree(s[0]) + enc_items(s.skip(1))
    }
}

/// Dictionary entries: each its key followed by its value.
pub open spec fn enc_entries(s: Seq<(Seq<char>, TreeModel)>) -> Seq<u8>
    decreases s,
{
    if s.len() == 0 {
        Seq::empty()
    } else {
        enc_string(s[0].0) + enc_tree(s[0].1) + enc_entries(s.skip(1))
    }
}

fn extend_bytes(out: &mut Vec<u8>, src: &[u8])
    ensures
        final(out)@ == old(out)@ + src@,
{
    let mut i: usize = 0;
    while i < src.len()
        invariant
            i <= src.len(),
            out@ == old(out)@ + src@.take(i as int),
        decreases src.len() - i,
    {
        out.push(src[i]);
        i += 1;
        assert(src@.take(i as int) == src@.take(i - 1).push(src@[i - 1]));
    }
    assert(src@.take(src.len() as int) == src@);
}

/// The two-byte header of a tree of the given type.
pub fn type_tag(tree_type: PropertyTreeType) -> (r: Vec<u8>)
    ensures
        r@ == seq![type_code(tree_type), 0u8],
{
    let code: u8 = match tree_type {
        PropertyTreeType::Nil => 0,
        PropertyTreeType::Bool => 1,
        PropertyTreeType::Number => 2,
        PropertyTreeType::String => 3,
        PropertyTreeType::List => 4,
        PropertyTreeType::Dictionary => 5,
        PropertyTreeType::SignedInteger => 6,
        PropertyTreeType::UnsignedInteger => 7,
    };
    let mut r = Vec::new();
    r.push(code);
    r.push(0);
    assert(r@ == seq![code, 0u8]);
    r
}

/// A string in the format's encoding.
pub fn save_string(s: &str) -> (r: Vec<u8>)
    ensures
        r@ == enc_string(s@),
{
    let mut result: Vec<u8> = Vec::new();
    if s.is_empty() {
        result.push(1);
        assert(result@ == seq![1u8]);
        return result;
    }
    let bytes = s.as_bytes();
    result.push(0);
    let n = bytes.len();
    if n < 255 {
        result.push(n as u8);
    } else {
        result.push(255);
        let len_bytes = u32_to_le_bytes(#[verifier::truncate] (n as u32));
        extend_bytes(&mut result, len_bytes.as_slice());
    }
    assert(result@ == seq![0u8] + enc_len(encode_utf8(s@).len()));
    extend_bytes(&mut result, bytes);
    result
}

/// A tree in the format's encoding.
pub fn save_ptree(tree: &PropertyTree) -> (r: Vec<u8>)
    ensures
        r@ == enc_tree(tree.model()),
    decreases tree,
{
    match tree {
        PropertyTree::String(value) => {
            let mut result = type_tag(PropertyTreeType::String);
            let s = save_string(value.as_str());
            extend_bytes(&mut result, s.as_slice());
            result
        },
        PropertyTree::Bool(value) => {
            let mut result = type_tag(PropertyTreeType::Bool);
            result.push(if *value { 1 } else { 0 });
            result
        },
        PropertyTree::Number(value) => {
            let mut result = type_tag(PropertyTreeType::Number);
            let b = u64_to_le_bytes(*value);
            extend_bytes(&mut result, b.as_slice());
            result
        },
        PropertyTree::SignedInteger(value) => {
            let mut result = type_tag(PropertyTreeType::SignedInteger);
            let b = u64_to_le_bytes(#[verifier::truncate] (*value as u64));
            extend_bytes(&mut result, b.as_slice());
            result
        },
        PropertyTree::UnsignedInteger(value) => {
            let mut result = type_tag(PropertyTreeType::UnsignedInteger);
            let b = u64_to_le_bytes(*value);
            extend_bytes(&mut result, b.as_slice());
            result
        },
        PropertyTree::Nil => type_tag(PropertyTreeType::Nil),
        PropertyTree::List(values) => {
            let mut result = type_tag(PropertyTreeType::List);
            let count = u32_to_le_bytes(#[verifier::truncate] (values.len() as u32));
            extend_bytes(&mut result, count.as_slice());
            let ghost header = result@;
            let ghost ms = models(values@);
            proof {
                lemma_models(values@);
            }
            assert(ms.skip(0) == ms);
            let mut i: usize = 0;
            while i < values.len()
                invariant
                    *tree == PropertyTree::List(*values),
                    i <= values.len(),
                    ms == models(values@),
                    ms.len() == values@.len(),
                    forall|j: int| 0 <= j < values@.len() ==> #[trigger] ms[j] == values@[j].model(),
                    result@ + enc_items(ms.skip(i as int)) == header + enc_items(ms),
                decreases values.len() - i,
            {
                proof {
                    assert(decreases_to!(*values => values[i as int]));
                    assert((*tree)->List_0 == *values);
                    assert(decreases_to!(*tree => (*tree)->List_0));
                    assert(decreases_to!(*tree => values[i as int]));
                }
                let item = save_ptree(&values[i]);
                proof {
                    let rest = ms.skip(i as int);
                    assert(rest[0] == ms[i as int]);
                    assert(rest.skip(1) == ms.skip(i + 1));
                }
                result.push(1);
                extend_bytes(&mut result, item.as_slice());
                i += 1;
            }
            assert(ms.skip(values.len() as int) == Seq::<TreeModel>::empty());
            result
        },
        PropertyTree::Dictionary(dict) => {
            let mut result = type_tag(PropertyTreeType::Dictionary);
            let count = u32_to_le_bytes(#[verifier::truncate] (dict.len() as u32));
            extend_bytes(&mut result, count.as_slice());
            let ghost header = result@;
            let ghost es = entry_models(dict@);
            proof {
                lemma_entry_models(dict@);
            }
            assert(es.skip(0) == es);
            let mut i: usize = 0;
            while i < dict.len()
                invariant
                    *tree == PropertyTree::Dictionary(*dict),
                    i <= dict.len(),
                    es == entry_models(dict@),
                    es.len() == dict@.len(),
                    forall|j: int|
                        0 <= j < dict@.len() ==> #[trigger] es[j] == (dict@[j].0@, dict@[j].1.model()),
                    result@ + enc_entries(es.skip(i as int)) == header + enc_entries(es),
                decreases dict.len() - i,
            {
                let key = save_string(dict[i].0.as_str());
                proof {
                    assert(decreases_to!(*dict => dict[i as int]));
                    assert(decreases_to!(dict[i as int] => dict[i as int].1));
                    assert((*tree)->Dictionary_0 == *dict);
                    assert(decreases_to!(*tree => (*tree)->Dictionary_0));
                    assert(decreases_to!(*tree => dict[i as int].1));
                }
                let value = save_ptree(&dict[i].1);
                proof {
                    let rest = es.skip(i as int);
                    assert(rest[0] == es[i as int]);
                    assert(rest.skip(1) == es.skip(i + 1));
                }
                extend_bytes(&mut result, key.as_slice());
                extend_bytes(&mut result, value.as_slice());
                i += 1;
            }
            assert(es.skip(dict.len() as int) == Seq::<(Seq<char>, TreeModel)>::empty());
            result
        },
    }
}

// ---------------------------------------------------------------------------
// Decoding
// ---------------------------------------------------------------------------
/// Why bytes are not a property tree.
#[derive(Clone, Copy, Debug, PartialEq, Eq)]
pub enum TreeError {
    /// The bytes ended inside a value.
    UnexpectedEof,
    /// A string's bytes are not UTF-8.
    InvalidUtf8,
    /// A type byte above 7.
    InvalidType(u8),
    /// A dictionary entry with an empty key.
    MissingKey,
}

/// A packed length at `p`: its value and the position after it.
pub open spec fn read_len(b: Seq<u8>, p: int) -> Option<(nat, int)> {
    if p < 0 || p >= b.len() {
        None
    } else if b[p] < 255 {
        Some((b[p] as nat, p + 1))
    } else if p + 5 <= b.len() {
        Some((spec_u32_from_le_bytes(b.subrange(p + 1, p + 5)) as nat, p + 5))
    } else {
        None
    }
}

/// A string at `p`: its characters and the position after it.
pub open spec fn read_string(b: Seq<u8>, p: int) -> Result<(Seq<char>, int), TreeError> {
    if p < 0 || p >= b.len() {
        Err(TreeError::UnexpectedEof)
    } else if b[p] != 0 {
        Ok((Seq::empty(), p + 1))
    } else {
        match read_len(b, p + 1) {
            None => Err(TreeError::UnexpectedEof),
            Some((n, q)) => if q + n > b.len() {
                Err(TreeError::UnexpectedEof)
            } else if valid_utf8(b.subrange(q, q + n)) {
                Ok((decode_utf8(b.subrange(q, q + n)), q + n))
            } else {
                Err(TreeError::InvalidUtf8)
            },
        }
    }
}

/// The index of the entry with key `k`, or -1.
pub open spec fn key_index(d: Seq<(Seq<char>, TreeModel)>, k: Seq<char>) -> int
    decreases d.len(),
{
    if d.len() == 0 {
        -1
    } else if d.last().0 == k {
        d.len() - 1
    } else {
        key_index(d.drop_last(), k)
    }
}

/// Inserting into a dictionary: an entry with the same key is replaced.
pub open spec fn dict_insert(d: Seq<(Seq<char>, TreeModel)>, k: Seq<char>, v: TreeModel) -> Seq<
    (Seq<char>, TreeModel),
> {
    let i = key_index(d, k);
    if i >= 0 {
        d.update(i, (k, v))
    } else {
        d.push((k, v))
    }
}

/// The tree at `p`: its value and the position after it.
pub open spec fn load_tree(b: Seq<u8>, p: int) -> Result<(TreeModel, int), TreeError>
    decreases b.len() - p,
{
    if p < 0 || p + 2 > b.len() {
        Err(TreeError::UnexpectedEof)
    } else {
        let t = b[p];
        let q = p + 2;
        if t > 7 {
            Err(TreeError::InvalidType(t))
        } else if t == 0 {
            Ok((TreeModel::Nil, q))
        } else if t == 1 {
            if b.len() - q < 1 {
                Err(TreeError::UnexpectedEof)
            } else {
                Ok((TreeModel::Bool(b[q] != 0), q + 1))
            }
        } else if t == 3 {
            match read_string(b, q) {
                Ok((s, e)) => Ok((TreeModel::Str(s), e)),
                Err(e) => Err(e),
            }
        } else if t == 4 || t == 5 {
            if q + 4 > b.len() {
                Err(TreeError::UnexpectedEof)
            } else {
                let n = spec_u32_from_le_bytes(b.subrange(q, q + 4)) as nat;
                if t == 4 {
                    match load_items(b, q + 4, n, Seq::empty()) {
                        Ok((items, e)) => Ok((TreeModel::List(items), e)),
                        Err(e) => Err(e),
                    }
                } else {
                    match load_entries(b, q + 4, n, Seq::empty()) {
                        Ok((entries, e)) => Ok((TreeModel::Dict(entries), e)),
                        Err(e) => Err(e),
                    }
                }
            }
        } else {
            if q + 8 > b.len() {
                Err(TreeError::UnexpectedEof)
            } else {
                let x = spec_u64_from_le_bytes(b.subrange(q, q + 8));
                if t == 2 {
                    Ok((TreeModel::Number(x), q + 8))
                } else if t == 6 {
                    Ok((TreeModel::Signed(x as i64), q + 8))
                } else {
                    Ok((TreeModel::Unsigned(x), q + 8))
                }
            }
        }
    }
}

/// `n` list items at `p`, appended to `acc`.
pub open spec fn load_items(b: Seq<u8>, p: int, n: nat, acc: Seq<TreeModel>) -> Result<
    (Seq<TreeModel>, int),
    TreeError,
>
    decreases b.len() - p,
{
    if n == 0 {
        Ok((acc, p))
    } else {
        match read_string(b, p) {
            Err(e) => Err(e),
            Ok((_k, p1)) => if p1 <= p || p1 > b.len() {
                Err(TreeError::UnexpectedEof)
            } else {
                match load_tree(b, p1) {
                    Err(e) => Err(e),
                    Ok((v, p2)) => if p2 <= p1 || p2 > b.len() {
                        Err(TreeError::UnexpectedEof)
                    } else {
                        load_items(b, p2, (n - 1) as nat, acc.push(v))
                    },
                }
            },
        }
    }
}

/// `n` dictionary entries at `p`, inserted into `acc`.
pub open spec fn load_entries(
    b: Seq<u8>,
    p: int,
    n: nat,
    acc: Seq<(Seq<char>, TreeModel)>,
) -> Result<(Seq<(Seq<char>, TreeModel)>, int), TreeError>
    decreases b.len() - p,
{
    if n == 0 {
        Ok((acc, p))
    } else {
        match read_string(b, p) {
            Err(e) => Err(e),
            Ok((k, p1)) => if k.len() == 0 {
                Err(TreeError::MissingKey)
            } else if p1 <= p || p1 > b.len() {
                Err(TreeError::UnexpectedEof)
            } else {
                match load_tree(b, p1) {
                    Err(e) => Err(e),
                    Ok((v, p2)) => if p2 <= p1 || p2 > b.len() {
                        Err(TreeError::UnexpectedEof)
                    } else {
                        load_entries(b, p2, (n - 1) as nat, dict_insert(acc, k, v))
                    },
                }
            },
        }
    }
}

/// Whether an exec result agrees with a spec result.
pub open spec fn agrees<T, U>(r: Result<(T, usize), TreeError>, s: Result<(U, int), TreeError>, f: spec_fn(T) -> U) -> bool {
    match r {
        Ok((t, e)) => s == Ok::<(U, int), TreeError>((f(t), e as int)),
        Err(x) => s == Err::<(U, int), TreeError>(x),
    }
}

/// `String::from_utf8`: `Some` exactly for valid UTF-8, holding the string
/// those bytes encode.
#[verifier::external_body]
fn string_from_utf8(bytes: Vec<u8>) -> (r: Option<String>)
    ensures
        r is Some <==> valid_utf8(bytes@),
        r matches Some(s) ==> s@ == decode_utf8(bytes@),
{
    String::from_utf8(bytes).ok()
}

fn read_packed_len(b: &[u8], p: usize) -> (r: Option<(usize, usize)>)
    requires
        p <= b@.len(),
    ensures
        match r {
            Some((n, q)) => read_len(b@, p as int) == Some((n as nat, q as int)) && q <= b@.len(),
            None => read_len(b@, p as int) is None,
        },
{
    if p >= b.len() {
        return None;
    }
    let first = b[p];
    if first < 255 {
        Some((first as usize, p + 1))
    } else if b.len() - p >= 5 {
        let n = u32_from_le_bytes(slice_subrange(b, p + 1, p + 5));
        Some((n as usize, p + 5))
    } else {
        None
    }
}

/// The string at `p` and the position after it.
pub fn read_ptree_string(b: &[u8], p: usize) -> (r: Result<(String, usize), TreeError>)
    requires
        p <= b@.len(),
    ensures
        match r {
            Ok((s, e)) => read_string(b@, p as int) == Ok::<(Seq<char>, int), TreeError>((s@, e as int)) && p < e <= b@.len(),
            Err(x) => read_string(b@, p as int) == Err::<(Seq<char>, int), TreeError>(x),
        },
{
    if p >= b.len() {
        return Err(TreeError::UnexpectedEof);
    }
    if b[p] != 0 {
        return Ok((String::new(), p + 1));
    }
    let (n, q) = match read_packed_len(b, p + 1) {
        Some(x) => x,
        None => return Err(TreeError::UnexpectedEof),
    };
    if n > b.len() - q {
        return Err(TreeError::UnexpectedEof);
    }
    let bytes = slice_to_vec(slice_subrange(b, q, q + n));
    match string_from_utf8(bytes) {
        Some(s) => Ok((s, q + n)),
        None => Err(TreeError::InvalidUtf8),
    }
}

fn find_key(d: &Vec<(String, PropertyTree)>, k: &String) -> (r: Option<usize>)
    ensures
        key_index(entry_models(d@), k@) == match r {
            Some(i) => i as int,
            None => -1,
        },
        r matches Some(i) ==> i < d@.len(),
{
    proof {
        lemma_entry_models(d@);
    }
    let mut i = d.len();
    assert(entry_models(d@).take(i as int) == entry_models(d@));
    while i > 0
        invariant
            i <= d@.len(),
            entry_models(d@).len() == d@.len(),
            forall|j: int| 0 <= j < d@.len() ==> #[trigger] entry_models(d@)[j] == (d@[j].0@, d@[j].1.model()),
            key_index(entry_models(d@), k@) == key_index(entry_models(d@).take(i as int), k@),
        decreases i,
    {
        let ghost pre = entry_models(d@).take(i as int);
        assert(pre.drop_last() == entry_models(d@).take(i - 1));
        if d[i - 1].0 == *k {
            return Some(i - 1);
        }
        i -= 1;
    }
    None
}

fn insert_entry(d: &mut Vec<(String, PropertyTree)>, k: String, v: PropertyTree)
    ensures
        entry_models(final(d)@) == dict_insert(entry_models(old(d)@), k@, v.model()),
{
    proof {
        lemma_entry_models(d@);
    }
    match find_key(d, &k) {
        Some(i) => {
            let ghost old_d = d@;
            d.set(i, (k, v));
            proof {
                lemma_entry_models(d@);
                assert(entry_models(d@) == entry_models(old_d).update(i as int, (k@, v.model())));
            }
        },
        None => {
            let ghost old_d = d@;
            d.push((k, v));
            proof {
                assert(d@.drop_last() == old_d);
            }
        },
    }
}

/// The tree at `pos` and the position after it.
pub fn load_ptree(b: &[u8], pos: usize) -> (r: Result<(PropertyTree, usize), TreeError>)
    requires
        pos <= b@.len(),
    ensures
        agrees(r, load_tree(b@, pos as int), |t: PropertyTree| t.model()),
        r matches Ok((_, e)) ==> pos < e <= b@.len(),
    decreases b@.len() - pos,
{
    if b.len() - pos < 2 {
        return Err(TreeError::UnexpectedEof);
    }
    let t = b[pos];
    let q = pos + 2;
    if t > 7 {
        return Err(TreeError::InvalidType(t));
    }
    if t == 0 {
        return Ok((PropertyTree::Nil, q));
    }
    if t == 1 {
        if b.len() - q < 1 {
            return Err(TreeError::UnexpectedEof);
        }
        return Ok((PropertyTree::Bool(b[q] != 0), q + 1));
    }
    if t == 3 {
        return match read_ptree_string(b, q) {
            Ok((s, e)) => Ok((PropertyTree::String(s), e)),
            Err(e) => Err(e),
        };
    }
    if t == 4 || t == 5 {
        if b.len() - q < 4 {
            return Err(TreeError::UnexpectedEof);
        }
        let count = u32_from_le_bytes(slice_subrange(b, q, q + 4));
        let start = q + 4;
        let mut p = start;
        let mut i: u32 = 0;
        if t == 4 {
            let mut items: Vec<PropertyTree> = Vec::new();
            while i < count
                invariant
                    t == 4,
                    start <= p <= b@.len(),
                    pos < start,
                    i <= count,
                    pos + 2 <= b@.len(),
                    b@[pos as int] == t,
                    q == pos + 2,
                    start == q + 4,
                    q + 4 <= b@.len(),
                    count == spec_u32_from_le_bytes(b@.subrange(q as int, q + 4)),
                    load_items(b@, start as int, count as nat, Seq::empty()) == load_items(
                        b@,
                        p as int,
                        (count - i) as nat,
                        models(items@),
                    ),
                decreases count - i,
            {
                let (_k, p1) = match read_ptree_string(b, p) {
                    Ok(x) => x,
                    Err(e) => return Err(e),
                };
                let (v, p2) = match load_ptree(b, p1) {
                    Ok(x) => x,
                    Err(e) => return Err(e),
                };
                proof {
                    assert(items@.push(v).drop_last() == items@);
                }
                items.push(v);
                p = p2;
                i += 1;
            }
            return Ok((PropertyTree::List(items), p));
        } else {
            let mut entries: Vec<(String, PropertyTree)> = Vec::new();
            while i < count
                invariant
                    t == 5,
                    start <= p <= b@.len(),
                    pos < start,
                    i <= count,
                    pos + 2 <= b@.len(),
                    b@[pos as int] == t,
                    q == pos + 2,
                    start == q + 4,
                    q + 4 <= b@.len(),
                    count == spec_u32_from_le_bytes(b@.subrange(q as int, q + 4)),
                    load_entries(b@, start as int, count as nat, Seq::empty()) == load_entries(
                        b@,
                        p as int,
                        (count - i) as nat,
                        entry_models(entries@),
                    ),
                decreases count - i,
            {
                let (k, p1) = match read_ptree_string(b, p) {
                    Ok(x) => x,
                    Err(e) => return Err(e),
                };
                if k.as_str().is_empty() {
                    return Err(TreeError::MissingKey);
                }
                let (v, p2) = match load_ptree(b, p1) {
                    Ok(x) => x,
                    Err(e) => return Err(e),
                };
                insert_entry(&mut entries, k, v);
                p = p2;
                i += 1;
            }
            return Ok((PropertyTree::Dictionary(entries), p));
        }
    }
    if b.len() - q < 8 {
        return Err(TreeError::UnexpectedEof);
    }
    let x = u64_from_le_bytes(slice_subrange(b, q, q + 8));
    if t == 2 {
        Ok((PropertyTree::Number(x), q + 8))
    } else if t == 6 {
        Ok((PropertyTree::SignedInteger(#[verifier::truncate] (x as i64)), q + 8))
    } else {
        Ok((PropertyTree::UnsignedInteger(x), q + 8))
    }
}

// ---------------------------------------------------------------------------
// Round trip
// ---------------------------------------------------------------------------
/// A string that the format can hold: its UTF-8 length fits a `u32`.
pub open spec fn wf_string(s: Seq<char>) -> bool {
    encode_utf8(s).len() <= u32::MAX
}

/// No entry of `s` has key `k`.
pub open spec fn key_absent(s: Seq<(Seq<char>, TreeModel)>, k: Seq<char>) -> bool {
    forall|i: int| 0 <= i < s.len() ==> #[trigger] s[i].0 != k
}

/// A tree that the format can hold and give back unchanged: counts and
/// string lengths fit a `u32`, dictionary keys are non-empty and distinct.
pub open spec fn wf_tree(t: TreeModel) -> bool
    decreases t,
{
    match t {
        TreeModel::Str(s) => wf_string(s),
        TreeModel::List(items) => items.len() <= u32::MAX && wf_items(items),
        TreeModel::Dict(entries) => entries.len() <= u32::MAX && wf_entries(entries),
        _ => true,
    }
}

pub open spec fn wf_items(s: Seq<TreeModel>) -> bool
    decreases s,
{
    s.len() > 0 ==> wf_tree(s[0]) && wf_items(s.skip(1))
}

pub open spec fn wf_entries(s: Seq<(Seq<char>, TreeModel)>) -> bool
    decreases s,
{
    s.len() > 0 ==> {
        &&& s[0].0.len() > 0
        &&& wf_string(s[0].0)
        &&& wf_tree(s[0].1)
        &&& key_absent(s.skip(1), s[0].0)
        &&& wf_entries(s.skip(1))
    }
}

/// A UTF-8 encoding takes at most four bytes per character.
pub proof fn lemma_encode_utf8_len(s: Seq<char>)
    ensures
        encode_utf8(s).len() <= 4 * s.len(),
    decreases s.len(),
{
    if s.len() > 0 {
        lemma_encode_utf8_len(s.drop_first());
    }
}

proof fn lemma_split(b: Seq<u8>, p: int, x: Seq<u8>, y: Seq<u8>)
    requires
        0 <= p,
        p + x.len() + y.len() <= b.len(),
        b.subrange(p, p + x.len() + y.len()) == x + y,
    ensures
        b.subrange(p, p + x.len()) == x,
        b.subrange(p + x.len(), p + x.len() + y.len()) == y,
{
    assert(b.subrange(p, p + x.len()) =~= (x + y).subrange(0, x.len() as int));
    assert(b.subrange(p + x.len(), p + x.len() + y.len()) =~= (x + y).subrange(
        x.len() as int,
        (x.len() + y.len()) as int,
    ));
}

proof fn lemma_read_string(b: Seq<u8>, p: int, s: Seq<char>)
    requires
        wf_string(s),
        0 <= p,
        p + enc_string(s).len() <= b.len(),
        b.subrange(p, p + enc_string(s).len()) == enc_string(s),
    ensures
        read_string(b, p) == Ok::<(Seq<char>, int), TreeError>((s, p + enc_string(s).len())),
{
    let e = enc_string(s);
    assert(b[p] == b.subrange(p, p + e.len())[0]);
    if s.len() > 0 {
        let bytes = encode_utf8(s);
        let n = bytes.len();
        let l = enc_len(n);
        lemma_split(b, p, seq![0u8] + l, bytes);
        lemma_split(b, p, seq![0u8], l);
        assert(b[p + 1] == b.subrange(p + 1, p + 1 + l.len())[0]);
        if n >= 255 {
            lemma_auto_spec_u32_to_from_le_bytes();
            lemma_split(b, p + 1, seq![255u8], spec_u32_to_le_bytes(n as u32));
        }
        assert(read_len(b, p + 1) == Some((n, p + 1 + l.len())));
        assert(b.subrange(p + 1 + l.len(), p + 1 + l.len() + n) == bytes);
        assert(valid_utf8(bytes));
        assert(decode_utf8(bytes) == s);
        assert(e.len() == 1 + l.len() + n);
    } else {
        assert(s == Seq::<char>::empty());
    }
}

/// Where a key stands in a dictionary: its last entry, or -1.
pub proof fn lemma_key_index_bounds(d: Seq<(Seq<char>, TreeModel)>, k: Seq<char>)
    ensures
        -1 <= key_index(d, k) < d.len(),
        key_index(d, k) >= 0 ==> d[key_index(d, k)].0 == k,
        forall|i: int| key_index(d, k) < i < d.len() ==> #[trigger] d[i].0 != k,
    decreases d.len(),
{
    if d.len() > 0 {
        lemma_key_index_bounds(d.drop_last(), k);
        if d.last().0 != k {
            assert forall|i: int| key_index(d, k) < i < d.len() implies #[trigger] d[i].0 != k by {
                if i < d.len() - 1 {
                    assert(d[i] == d.drop_last()[i]);
                }
            }
        }
    }
}

proof fn lemma_key_index_absent(d: Seq<(Seq<char>, TreeModel)>, k: Seq<char>)
    requires
        key_absent(d, k),
    ensures
        key_index(d, k) == -1,
    decreases d.len(),
{
    if d.len() > 0 {
        assert(d.last().0 != k) by {
            assert(d[d.len() - 1].0 != k);
        }
        lemma_key_index_absent(d.drop_last(), k);
    }
}

/// Wherever the encoding of a well-formed tree stands in a byte string,
/// loading from its first byte gives the tree back and ends right after it.
pub proof fn lemma_load_tree(b: Seq<u8>, p: int, t: TreeModel)
    requires
        wf_tree(t),
        0 <= p,
        p + enc_tree(t).len() <= b.len(),
        b.subrange(p, p + enc_tree(t).len()) == enc_tree(t),
    ensures
        load_tree(b, p) == Ok::<(TreeModel, int), TreeError>((t, p + enc_tree(t).len())),
    decreases t,
{
    let e = enc_tree(t);
    assert(b[p] == e[0]);
    assert(b[p + 1] == e[1]);
    lemma_auto_spec_u32_to_from_le_bytes();
    lemma_auto_spec_u64_to_from_le_bytes();
    match t {
        TreeModel::Nil => {},
        TreeModel::Bool(v) => {
            assert(b[p + 2] == e[2]);
        },
        TreeModel::Number(x) => {
            lemma_split(b, p, seq![2u8, 0u8], spec_u64_to_le_bytes(x));
        },
        TreeModel::Signed(i) => {
            lemma_split(b, p, seq![6u8, 0u8], spec_u64_to_le_bytes(i as u64));
            assert((i as u64) as i64 == i) by (bit_vector);
        },
        TreeModel::Unsigned(u) => {
            lemma_split(b, p, seq![7u8, 0u8], spec_u64_to_le_bytes(u));
        },
        TreeModel::Str(s) => {
            lemma_split(b, p, seq![3u8, 0u8], enc_string(s));
            lemma_read_string(b, p + 2, s);
        },
        TreeModel::List(items) => {
            let head = seq![4u8, 0u8] + spec_u32_to_le_bytes(items.len() as u32);
            lemma_split(b, p, head, enc_items(items));
            lemma_split(b, p, seq![4u8, 0u8], spec_u32_to_le_bytes(items.len() as u32));
            lemma_load_items(b, p + 6, items, Seq::empty());
            assert(Seq::<TreeModel>::empty() + items == items);
        },
        TreeModel::Dict(entries) => {
            let head = seq![5u8, 0u8] + spec_u32_to_le_bytes(entries.len() as u32);
            lemma_split(b, p, head, enc_entries(entries));
            lemma_split(b, p, seq![5u8, 0u8], spec_u32_to_le_bytes(entries.len() as u32));
            lemma_load_entries(b, p + 6, entries, Seq::empty());
            assert(Seq::<(Seq<char>, TreeModel)>::empty() + entries == entries);
        },
    }
}

proof fn lemma_load_items(b: Seq<u8>, p: int, s: Seq<TreeModel>, acc: Seq<TreeModel>)
    requires
        wf_items(s),
        0 <= p,
        p + enc_items(s).len() <= b.len(),
        b.subrange(p, p + enc_items(s).len()) == enc_items(s),
    ensures
        load_items(b, p, s.len(), acc) == Ok::<(Seq<TreeModel>, int), TreeError>(
            (acc + s, p + enc_items(s).len()),
        ),
    decreases s,
{
    if s.len() == 0 {
        assert(acc + s == acc);
    } else {
        let first = seq![1u8] + enc_tree(s[0]);
        lemma_split(b, p, first, enc_items(s.skip(1)));
        lemma_split(b, p, seq![1u8], enc_tree(s[0]));
        assert(b[p] == 1u8) by {
            assert(b[p] == b.subrange(p, p + 1)[0]);
        }
        lemma_load_tree(b, p + 1, s[0]);
        lemma_load_items(b, p + first.len(), s.skip(1), acc.push(s[0]));
        assert(acc.push(s[0]) + s.skip(1) == acc + s);
    }
}

proof fn lemma_load_entries(
    b: Seq<u8>,
    p: int,
    s: Seq<(Seq<char>, TreeModel)>,
    acc: Seq<(Seq<char>, TreeModel)>,
)
    requires
        wf_entries(s),
        forall|i: int| 0 <= i < s.len() ==> key_absent(acc, #[trigger] s[i].0),
        0 <= p,
        p + enc_entries(s).len() <= b.len(),
        b.subrange(p, p + enc_entries(s).len()) == enc_entries(s),
    ensures
        load_entries(b, p, s.len(), acc) == Ok::<(Seq<(Seq<char>, TreeModel)>, int), TreeError>(
            (acc + s, p + enc_entries(s).len()),
        ),
    decreases s,
{
    if s.len() == 0 {
        assert(acc + s == acc);
    } else {
        let k = s[0].0;
        let v = s[0].1;
        let first = enc_string(k) + enc_tree(v);
        lemma_split(b, p, first, enc_entries(s.skip(1)));
        lemma_split(b, p, enc_string(k), enc_tree(v));
        lemma_read_string(b, p, k);
        lemma_load_tree(b, p + enc_string(k).len(), v);
        lemma_key_index_absent(acc, k);
        let acc2 = acc.push((k, v));
        assert(dict_insert(acc, k, v) == acc2);
        assert forall|i: int| 0 <= i < s.skip(1).len() implies key_absent(acc2, #[trigger] s.skip(1)[i].0) by {
            assert(s.skip(1)[i] == s[i + 1]);
            assert(key_absent(acc, s[i + 1].0));
            assert(s.skip(1)[i].0 != k);
            assert forall|j: int| 0 <= j < acc2.len() implies #[trigger] acc2[j].0 != s.skip(1)[i].0 by {
                if j < acc.len() {
                    assert(acc2[j] == acc[j]);
                }
            }
        }
        lemma_load_entries(b, p + first.len(), s.skip(1), acc2);
        assert(acc2 + s.skip(1) == acc + s);
    }
}

proof fn lemma_wf_items_of(s: Seq<TreeModel>)
    requires
        forall|i: int| 0 <= i < s.len() ==> wf_tree(#[trigger] s[i]),
    ensures
        wf_items(s),
    decreases s.len(),
{
    if s.len() > 0 {
        let t = s.skip(1);
        assert forall|i: int| 0 <= i < t.len() implies wf_tree(#[trigger] t[i]) by {
            assert(t[i] == s[i + 1]);
        }
        lemma_wf_items_of(t);
        assert(wf_tree(s[0]));
    }
}

proof fn lemma_wf_entries_of(e: Seq<(Seq<char>, TreeModel)>)
    requires
        forall|i: int, j: int| 0 <= i < j < e.len() ==> e[i].0 != e[j].0,
        forall|i: int|
            0 <= i < e.len() ==> {
                &&& (#[trigger] e[i]).0.len() > 0
                &&& wf_string(e[i].0)
                &&& wf_tree(e[i].1)
            },
    ensures
        wf_entries(e),
    decreases e.len(),
{
    if e.len() > 0 {
        let t = e.skip(1);
        assert forall|i: int| 0 <= i < t.len() implies #[trigger] t[i].0 != e[0].0 by {
            assert(t[i] == e[i + 1]);
        }
        assert forall|i: int| 0 <= i < t.len() implies {
            &&& (#[trigger] t[i]).0.len() > 0
            &&& wf_string(t[i].0)
            &&& wf_tree(t[i].1)
        } by {
            assert(t[i] == e[i + 1]);
        }
        assert forall|i: int, j: int| 0 <= i < j < t.len() implies t[i].0 != t[j].0 by {
            assert(t[i] == e[i + 1] && t[j] == e[j + 1]);
        }
        lemma_wf_entries_of(t);
        assert(e[0] == e[0]);
    }
}

/// The entries of a well-formed dictionary, one by one: non-empty distinct
/// keys within the format's limits, and well-formed values.
pub proof fn lemma_wf_entries_elems(e: Seq<(Seq<char>, TreeModel)>)
    requires
        wf_entries(e),
    ensures
        forall|i: int, j: int| 0 <= i < j < e.len() ==> e[i].0 != e[j].0,
        forall|i: int|
            0 <= i < e.len() ==> {
                &&& (#[trigger] e[i]).0.len() > 0
                &&& wf_string(e[i].0)
                &&& wf_tree(e[i].1)
            },
    decreases e.len(),
{
    if e.len() > 0 {
        let t = e.skip(1);
        lemma_wf_entries_elems(t);
        assert forall|i: int, j: int| 0 <= i < j < e.len() implies e[i].0 != e[j].0 by {
            if i > 0 {
                assert(e[i] == t[i - 1] && e[j] == t[j - 1]);
            } else {
                assert(e[j] == t[j - 1]);
            }
        }
        assert forall|i: int| 0 <= i < e.len() implies {
            &&& (#[trigger] e[i]).0.len() > 0
            &&& wf_string(e[i].0)
            &&& wf_tree(e[i].1)
        } by {
            if i > 0 {
                assert(e[i] == t[i - 1]);
            }
        }
    }
}

proof fn lemma_read_string_wf(b: Seq<u8>, p: int)
    ensures
        read_string(b, p) matches Ok((s, _)) ==> wf_string(s),
{
    broadcast use decode_utf8_encode_utf8;

    if 0 <= p < b.len() && b[p] == 0 {
        if let Some((n, q)) = read_len(b, p + 1) {
            if q + n <= b.len() && valid_utf8(b.subrange(q, q + n)) {
                let sub = b.subrange(q, q + n);
                assert(encode_utf8(decode_utf8(sub)) == sub);
            }
        }
    }
}

proof fn lemma_dict_insert_wf(d: Seq<(Seq<char>, TreeModel)>, k: Seq<char>, v: TreeModel)
    requires
        forall|i: int, j: int| 0 <= i < j < d.len() ==> d[i].0 != d[j].0,
        forall|i: int|
            0 <= i < d.len() ==> {
                &&& (#[trigger] d[i]).0.len() > 0
                &&& wf_string(d[i].0)
                &&& wf_tree(d[i].1)
            },
        k.len() > 0,
        wf_string(k),
        wf_tree(v),
    ensures
        forall|i: int, j: int| 0 <= i < j < dict_insert(d, k, v).len() ==> dict_insert(d, k, v)[i].0 != dict_insert(d, k, v)[j].0,
        forall|i: int|
            0 <= i < dict_insert(d, k, v).len() ==> {
                &&& (#[trigger] dict_insert(d, k, v)[i]).0.len() > 0
                &&& wf_string(dict_insert(d, k, v)[i].0)
                &&& wf_tree(dict_insert(d, k, v)[i].1)
            },
        dict_insert(d, k, v).len() <= d.len() + 1,
{
    lemma_key_index_bounds(d, k);
    let n = dict_insert(d, k, v);
    let x = key_index(d, k);
    if x >= 0 {
        assert forall|a: int, c: int| 0 <= a < c < n.len() implies n[a].0 != n[c].0 by {
            assert(n[a].0 == d[a].0 && n[c].0 == d[c].0);
        }
        assert forall|a: int| 0 <= a < n.len() implies {
            &&& (#[trigger] n[a]).0.len() > 0
            &&& wf_string(n[a].0)
            &&& wf_tree(n[a].1)
        } by {
            if a != x {
                assert(n[a] == d[a]);
            }
        }
    } else {
        assert forall|a: int, c: int| 0 <= a < c < n.len() implies n[a].0 != n[c].0 by {
            if c < d.len() {
                assert(n[a] == d[a] && n[c] == d[c]);
            } else {
                assert(n[a] == d[a]);
                assert(d[a].0 != k);
            }
        }
        assert forall|a: int| 0 <= a < n.len() implies {
            &&& (#[trigger] n[a]).0.len() > 0
            &&& wf_string(n[a].0)
            &&& wf_tree(n[a].1)
        } by {
            if a < d.len() {
                assert(n[a] == d[a]);
            }
        }
    }
}

proof fn lemma_load_tree_wf(b: Seq<u8>, p: int)
    ensures
        load_tree(b, p) matches Ok((t, _)) ==> wf_tree(t),
    decreases b.len() - p, 0int,
{
    if 0 <= p && p + 2 <= b.len() {
        let t = b[p];
        let q = p + 2;
        if t == 3 {
            lemma_read_string_wf(b, q);
        }
        if (t == 4 || t == 5) && q + 4 <= b.len() {
            let n = spec_u32_from_le_bytes(b.subrange(q, q + 4)) as nat;
            if t == 4 {
                lemma_load_items_wf(b, q + 4, n, Seq::empty());
                if let Ok((items, _)) = load_items(b, q + 4, n, Seq::empty()) {
                    lemma_wf_items_of(items);
                }
            } else {
                lemma_load_entries_wf(b, q + 4, n, Seq::empty());
                if let Ok((entries, _)) = load_entries(b, q + 4, n, Seq::empty()) {
                    lemma_wf_entries_of(entries);
                }
            }
        }
    }
}

proof fn lemma_load_items_wf(b: Seq<u8>, p: int, n: nat, acc: Seq<TreeModel>)
    requires
        forall|i: int| 0 <= i < acc.len() ==> wf_tree(#[trigger] acc[i]),
    ensures
        load_items(b, p, n, acc) matches Ok((items, _)) ==> {
            &&& items.len() == acc.len() + n
            &&& forall|i: int| 0 <= i < items.len() ==> wf_tree(#[trigger] items[i])
        },
    decreases b.len() - p, 1int,
{
    if n > 0 {
        if let Ok((_k, p1)) = read_string(b, p) {
            if p < p1 <= b.len() {
                lemma_load_tree_wf(b, p1);
                if let Ok((v, p2)) = load_tree(b, p1) {
                    if p1 < p2 <= b.len() {
                        let acc2 = acc.push(v);
                        assert forall|i: int| 0 <= i < acc2.len() implies wf_tree(#[trigger] acc2[i]) by {
                            if i < acc.len() {
                                assert(acc2[i] == acc[i]);
                            }
                        }
                        lemma_load_items_wf(b, p2, (n - 1) as nat, acc2);
                    }
                }
            }
        }
    }
}

proof fn lemma_load_entries_wf(b: Seq<u8>, p: int, n: nat, acc: Seq<(Seq<char>, TreeModel)>)
    requires
        forall|i: int, j: int| 0 <= i < j < acc.len() ==> acc[i].0 != acc[j].0,
        forall|i: int|
            0 <= i < acc.len() ==> {
                &&& (#[trigger] acc[i]).0.len() > 0
                &&& wf_string(acc[i].0)
                &&& wf_tree(acc[i].1)
            },
    ensures
        load_entries(b, p, n, acc) matches Ok((e, _)) ==> {
            &&& e.len() <= acc.len() + n
            &&& forall|i: int, j: int| 0 <= i < j < e.len() ==> e[i].0 != e[j].0
            &&& forall|i: int|
                0 <= i < e.len() ==> {
                    &&& (#[trigger] e[i]).0.len() > 0
                    &&& wf_string(e[i].0)
                    &&& wf_tree(e[i].1)
                }
        },
    decreases b.len() - p, 1int,
{
    if n > 0 {
        if let Ok((k, p1)) = read_string(b, p) {
            if k.len() > 0 && p < p1 <= b.len() {
                lemma_read_string_wf(b, p);
                lemma_load_tree_wf(b, p1);
                if let Ok((v, p2)) = load_tree(b, p1) {
                    if p1 < p2 <= b.len() {
                        lemma_dict_insert_wf(acc, k, v);
                        lemma_load_entries_wf(b, p2, (n - 1) as nat, dict_insert(acc, k, v));
                    }
                }
            }
        }
    }
}

/// Every tree that loads is one the format gives back unchanged: counts
/// and string lengths fit a `u32`, dictionary keys are non-empty and
/// distinct.
pub proof fn lemma_loaded_tree_wf(b: Seq<u8>, p: int)
    ensures
        load_tree(b, p) matches Ok((t, _)) ==> wf_tree(t),
{
    lemma_load_tree_wf(b, p);
}

/// Factorio's bytes for a string: the single byte 1 for the empty string;
/// otherwise 0, then the UTF-8 length in one byte when below 255 and else
/// the byte 255 followed by the length as four little-endian bytes, then
/// the UTF-8 bytes.
pub proof fn lemma_string_bytes(s: Seq<char>)
    ensures
        s.len() == 0 ==> enc_string(s).len() == 1 && enc_string(s)[0] == 1u8,
        s.len() > 0 && encode_utf8(s).len() < 255 ==> {
            let e = enc_string(s);
            &&& e.len() == 2 + encode_utf8(s).len()
            &&& e[0] == 0u8
            &&& e[1] as nat == encode_utf8(s).len()
            &&& e.skip(2) == encode_utf8(s)
        },
        s.len() > 0 && 255 <= encode_utf8(s).len() <= u32::MAX ==> {
            let e = enc_string(s);
            &&& e.len() == 6 + encode_utf8(s).len()
            &&& e[0] == 0u8
            &&& e[1] == 255u8
            &&& e.subrange(2, 6) == spec_u32_to_le_bytes(encode_utf8(s).len() as u32)
            &&& e.skip(6) == encode_utf8(s)
        },
{
    let u = encode_utf8(s);
    if s.len() > 0 {
        let e = enc_string(s);
        if u.len() < 255 {
            assert(e.skip(2) =~= u);
        } else if u.len() <= u32::MAX {
            let l = spec_u32_to_le_bytes(u.len() as u32);
            assert(l.len() == 4) by {
                lemma_auto_spec_u32_to_from_le_bytes();
            }
            assert(e.subrange(2, 6) =~= l);
            assert(e.skip(6) =~= u);
        }
    }
}

/// Factorio's type tag of each kind of tree: none 0, boolean 1, number 2,
/// string 3, list 4, dictionary 5, signed integer 6, unsigned integer 7.
pub open spec fn factorio_tag(t: TreeModel) -> u8 {
    match t {
        TreeModel::Nil => 0u8,
        TreeModel::Bool(_) => 1u8,
        TreeModel::Number(_) => 2u8,
        TreeModel::Str(_) => 3u8,
        TreeModel::List(_) => 4u8,
        TreeModel::Dict(_) => 5u8,
        TreeModel::Signed(_) => 6u8,
        TreeModel::Unsigned(_) => 7u8,
    }
}

/// Every tree is written starting with its kind's type tag and the
/// any-type flag 0, and every tree read is of the kind its first byte tags.
pub proof fn lemma_type_tags(t: TreeModel, b: Seq<u8>, p: int)
    ensures
        enc_tree(t).len() >= 2,
        enc_tree(t)[0] == factorio_tag(t),
        enc_tree(t)[1] == 0u8,
        load_tree(b, p) matches Ok((r, _)) ==> 0 <= p < b.len() && b[p] == factorio_tag(r),
{
    match t {
        TreeModel::Nil => {},
        TreeModel::Bool(_) => {},
        _ => {
            assert(enc_tree(t)[0] == factorio_tag(t));
        },
    }
}

/// Factorio's bytes for a boolean: the type tag 1, the any-type flag 0, and
/// one value byte that is 1 for true and 0 for false.
pub proof fn lemma_bool_bytes(b: bool)
    ensures
        enc_tree(TreeModel::Bool(b)).len() == 3,
        enc_tree(TreeModel::Bool(b))[0] == 1u8,
        enc_tree(TreeModel::Bool(b))[1] == 0u8,
        b ==> enc_tree(TreeModel::Bool(b))[2] == 1u8,
        !b ==> enc_tree(TreeModel::Bool(b))[2] == 0u8,
{
}

/// Reading a boolean that Factorio wrote: after the type tag 1 and any
/// second byte, a value byte of 0 reads as false and any other as true,
/// and the tree ends after those three bytes.
pub proof fn lemma_read_bool(flag: u8, value: u8, rest: Seq<u8>)
    ensures
        load_tree(seq![1u8, flag, value] + rest, 0) == Ok::<(TreeModel, int), TreeError>(
            (TreeModel::Bool(value != 0u8), 3),
        ),
        load_tree(seq![1u8, flag, 1u8] + rest, 0) == Ok::<(TreeModel, int), TreeError>((TreeModel::Bool(true), 3)),
        load_tree(seq![1u8, flag, 0u8] + rest, 0) == Ok::<(TreeModel, int), TreeError>((TreeModel::Bool(false), 3)),
{
    let b = seq![1u8, flag, value] + rest;
    assert(b[0] == 1u8 && b[2] == value);
    let b1 = seq![1u8, flag, 1u8] + rest;
    assert(b1[0] == 1u8 && b1[2] == 1u8);
    let b0 = seq![1u8, flag, 0u8] + rest;
    assert(b0[0] == 1u8 && b0[2] == 0u8);
}

/// Saving a well-formed tree and loading the bytes back gives the same tree
/// and consumes exactly the saved bytes, whatever follows them.
pub proof fn lemma_tree_round_trip(t: TreeModel, rest: Seq<u8>)
    requires
        wf_tree(t),
    ensures
        load_tree(enc_tree(t) + rest, 0) == Ok::<(TreeModel, int), TreeError>(
            (t, enc_tree(t).len() as int),
        ),
{
    let b = enc_tree(t) + rest;
    assert(b.subrange(0, enc_tree(t).len() as int) == enc_tree(t));
    lemma_load_tree(b, 0, t);
}

} // verus!
