//! CBOR: the tree a document holds, and the trip between trees and bytes.
//!
//! `ciborium` reads and writes the bytes. What is read or written here is the
//! tree between: an [`Item`], whose mathematical value is a [`Cbor`]. How the
//! length of an item was given is no part of what `ciborium` hands over, so it is
//! looked up in the bytes.

use vstd::prelude::*;
use crate::bytes;
use crate::bytes::{array32, copy_bytes, same_bytes, same_text, text_of_bytes};
use ciborium::value::Value;

verus! {

/// The mathematical value of a CBOR document.
#[verifier::ext_equal]
pub enum Cbor {
    Int(int),
    Bytes(Seq<u8>),
    Text(Seq<char>),
    Array(Seq<Cbor>),
    Table(Seq<(Cbor, Cbor)>),
    Tag(u64, Box<Cbor>),
    /// A text, byte string or table whose length is not told at its start.
    Chunked(Box<Cbor>),
    Null,
    /// Anything this library neither writes nor reads: booleans, floats.
    Other,
}

/// A CBOR document.
#[derive(Debug)]
pub enum Item {
    Int(i128),
    Bytes(Vec<u8>),
    Text(String),
    Array(Vec<Item>),
    Table(Vec<(Item, Item)>),
    Tag(u64, Box<Item>),
    /// A text, byte string or table whose length is not told at its start.
    Chunked(Box<Item>),
    Null,
    /// Anything this library neither writes nor reads: booleans, floats.
    Other,
}

/// The tree of an item.
pub open spec fn item_tree(i: Item) -> Cbor
    decreases i,
{
    match i {
        Item::Int(n) => Cbor::Int(n as int),
        Item::Bytes(b) => Cbor::Bytes(b@),
        Item::Text(t) => Cbor::Text(t@),
        Item::Array(a) => Cbor::Array(item_trees(a@)),
        Item::Table(m) => Cbor::Table(pair_trees(m@)),
        Item::Tag(t, b) => Cbor::Tag(t, Box::new(item_tree(*b))),
        Item::Chunked(b) => Cbor::Chunked(Box::new(item_tree(*b))),
        Item::Null => Cbor::Null,
        Item::Other => Cbor::Other,
    }
}

/// The trees of a sequence of items.
pub open spec fn item_trees(s: Seq<Item>) -> Seq<Cbor>
    decreases s,
{
    if s.len() == 0 {
        Seq::empty()
    } else {
        item_trees(s.drop_last()).push(item_tree(s.last()))
    }
}

/// The trees of the entries of a table.
pub open spec fn pair_trees(s: Seq<(Item, Item)>) -> Seq<(Cbor, Cbor)>
    decreases s,
{
    if s.len() == 0 {
        Seq::empty()
    } else {
        pair_trees(s.drop_last()).push((item_tree(s.last().0), item_tree(s.last().1)))
    }
}

impl View for Item {
    type V = Cbor;

    open spec fn view(&self) -> Cbor {
        item_tree(*self)
    }
}

pub proof fn item_trees_index(s: Seq<Item>)
    ensures
        item_trees(s).len() == s.len(),
        forall|i: int| 0 <= i < s.len() ==> #[trigger] item_trees(s)[i] == s[i]@,
    decreases s,
{
    if s.len() > 0 {
        item_trees_index(s.drop_last());
    }
}

pub proof fn pair_trees_index(s: Seq<(Item, Item)>)
    ensures
        pair_trees(s).len() == s.len(),
        forall|i: int|
            0 <= i < s.len() ==> #[trigger] pair_trees(s)[i] == (s[i].0@, s[i].1@),
    decreases s,
{
    if s.len() > 0 {
        pair_trees_index(s.drop_last());
    }
}

/// How deep the documents of this library nest, at most.
pub const MAX_DEPTH: u64 = 8;

/// The tree is made of what this library writes -- unsigned integers, byte
/// strings, text, arrays, tables and null -- nested at most `depth` deep.
pub open spec fn plain(c: Cbor, depth: nat) -> bool
    decreases depth,
{
    match c {
        Cbor::Int(n) => 0 <= n <= u64::MAX,
        Cbor::Bytes(_) => true,
        Cbor::Text(_) => true,
        Cbor::Null => true,
        Cbor::Array(s) => depth > 0 && forall|i: int|
            0 <= i < s.len() ==> plain(#[trigger] s[i], (depth - 1) as nat),
        Cbor::Table(s) => depth > 0 && forall|i: int|
            0 <= i < s.len() ==> plain((#[trigger] s[i]).0, (depth - 1) as nat) && plain(
                s[i].1,
                (depth - 1) as nat,
            ),
        Cbor::Tag(_, _) => false,
        Cbor::Chunked(_) => false,
        Cbor::Other => false,
    }
}

/// A plain tree stays plain under a larger bound.
pub proof fn plain_deeper(c: Cbor, small: nat, large: nat)
    requires
        plain(c, small),
        small <= large,
    ensures
        plain(c, large),
    decreases small,
{
    match c {
        Cbor::Array(s) => {
            assert forall|i: int| 0 <= i < s.len() implies plain(
                #[trigger] s[i],
                (large - 1) as nat,
            ) by {
                plain_deeper(s[i], (small - 1) as nat, (large - 1) as nat);
            }
        },
        Cbor::Table(s) => {
            assert forall|i: int| 0 <= i < s.len() implies plain(
                (#[trigger] s[i]).0,
                (large - 1) as nat,
            ) && plain(s[i].1, (large - 1) as nat) by {
                plain_deeper(s[i].0, (small - 1) as nat, (large - 1) as nat);
                plain_deeper(s[i].1, (small - 1) as nat, (large - 1) as nat);
            }
        },
        _ => {},
    }
}

/// The elements of a plain array are plain.
proof fn plain_elements(s: Seq<Cbor>, depth: nat)
    requires
        plain(Cbor::Array(s), depth),
    ensures
        depth > 0,
        forall|i: int| 0 <= i < s.len() ==> plain(#[trigger] s[i], (depth - 1) as nat),
{
    assert forall|i: int| 0 <= i < s.len() implies plain(#[trigger] s[i], (depth - 1) as nat) by {
        assert(Cbor::Array(s)->Array_0 == s);
    }
}

/// The entries of a plain table are plain.
proof fn plain_entries(s: Seq<(Cbor, Cbor)>, depth: nat)
    requires
        plain(Cbor::Table(s), depth),
    ensures
        depth > 0,
        forall|i: int|
            0 <= i < s.len() ==> plain((#[trigger] s[i]).0, (depth - 1) as nat) && plain(
                s[i].1,
                (depth - 1) as nat,
            ),
{
    assert forall|i: int| 0 <= i < s.len() implies plain((#[trigger] s[i]).0, (depth - 1) as nat)
        && plain(s[i].1, (depth - 1) as nat) by {
        assert(Cbor::Table(s)->Table_0 == s);
    }
}

/// What [`write`] accepts.
pub open spec fn writable(c: Cbor) -> bool {
    plain(c, MAX_DEPTH as nat)
}

// ---------------------------------------------------------------------------
// What ciborium does.
// ---------------------------------------------------------------------------

#[verifier::external_type_specification]
#[verifier::external_body]
pub struct ExValue(Value);

/// The tree that a `ciborium::value::Value` holds. A value does not tell how the
/// length of an item was given.
pub uninterp spec fn tree(v: Value) -> Cbor;

/// The bytes `ciborium::into_writer` writes for a value that holds this tree.
pub uninterp spec fn cbor_bytes(c: Cbor) -> Seq<u8>;

/// The tree `ciborium::from_reader` finds at the start of these bytes, or what it
/// says where it finds none.
pub uninterp spec fn cbor_parse(bytes: Seq<u8>) -> Result<Cbor, Seq<char>>;

/// `ciborium::from_reader` finds this tree.
pub open spec fn parses_to(bytes: Seq<u8>, c: Cbor) -> bool {
    cbor_parse(bytes) == Ok::<Cbor, Seq<char>>(c)
}

/// One node of a `Value`, opened.
enum Node {
    Int(i128),
    Bytes(Vec<u8>),
    Text(String),
    Array(Vec<Value>),
    Table(Vec<(Value, Value)>),
    Tag(u64, Box<Value>),
    Null,
    Other,
}

spec fn node_tree(n: Node) -> Cbor {
    match n {
        Node::Int(n) => Cbor::Int(n as int),
        Node::Bytes(b) => Cbor::Bytes(b@),
        Node::Text(t) => Cbor::Text(t@),
        Node::Array(a) => Cbor::Array(a@.map_values(|v: Value| tree(v))),
        Node::Table(m) => Cbor::Table(
            m@.map_values(|e: (Value, Value)| (tree(e.0), tree(e.1))),
        ),
        Node::Tag(t, b) => Cbor::Tag(t, Box::new(tree(*b))),
        Node::Null => Cbor::Null,
        Node::Other => Cbor::Other,
    }
}

/// The variants of `ciborium::value::Value`, told apart: an opened value holds
/// the tree the value held. Booleans and floats are not told apart.
#[verifier::external_body]
fn open_value(v: Value) -> (n: Node)
    ensures
        node_tree(n) == tree(v),
{
    match v {
        Value::Integer(i) => Node::Int(i128::from(i)),
        Value::Bytes(b) => Node::Bytes(b),
        Value::Text(t) => Node::Text(t),
        Value::Array(a) => Node::Array(a),
        Value::Map(m) => Node::Table(m),
        Value::Tag(t, b) => Node::Tag(t, b),
        Value::Null => Node::Null,
        _ => Node::Other,
    }
}

/// `Value::Integer`, from an unsigned number.
#[verifier::external_body]
fn integer_value(n: u64) -> (v: Value)
    ensures
        tree(v) == Cbor::Int(n as int),
{
    Value::Integer(ciborium::value::Integer::from(n))
}

/// `Value::Bytes`.
#[verifier::external_body]
fn bytes_value(b: Vec<u8>) -> (v: Value)
    ensures
        tree(v) == Cbor::Bytes(b@),
{
    Value::Bytes(b)
}

/// `Value::Text`.
#[verifier::external_body]
fn text_value(t: String) -> (v: Value)
    ensures
        tree(v) == Cbor::Text(t@),
{
    Value::Text(t)
}

/// `Value::Array`.
#[verifier::external_body]
fn array_value(a: Vec<Value>) -> (v: Value)
    ensures
        tree(v) == Cbor::Array(a@.map_values(|x: Value| tree(x))),
{
    Value::Array(a)
}

/// `Value::Map`, with its entries in the order given.
#[verifier::external_body]
fn table_value(m: Vec<(Value, Value)>) -> (v: Value)
    ensures
        tree(v) == Cbor::Table(m@.map_values(|e: (Value, Value)| (tree(e.0), tree(e.1)))),
{
    Value::Map(m)
}

/// `Value::Null`.
#[verifier::external_body]
fn null_value() -> (v: Value)
    ensures
        tree(v) == Cbor::Null,
{
    Value::Null
}

/// `ciborium::into_writer` on a value, into memory. What it writes is named
/// [`cbor_bytes`]. For a plain tree the writer cannot fail, and
/// `ciborium::from_reader` finds the same tree in those bytes. It writes at least
/// one byte, and the length of each item at its start.
#[verifier::external_body]
fn write_value(v: &Value) -> (r: Vec<u8>)
    requires
        writable(tree(*v)),
    ensures
        r@ == cbor_bytes(tree(*v)),
        parses_to(r@, tree(*v)),
        r@.len() > 0,
        laid_out(tree(*v), r@, 0).0 == tree(*v),
{
    let mut buf = Vec::new();
    ciborium::into_writer(v, &mut buf).expect("cbor encode");
    buf
}

/// `ciborium::from_reader` into a `Value`: the tree named [`cbor_parse`], or the
/// text of the error it reports.
#[verifier::external_body]
fn read_value(bytes: &[u8]) -> (r: Result<Value, String>)
    ensures
        match r {
            Ok(v) => cbor_parse(bytes@) == Ok::<Cbor, Seq<char>>(tree(v)),
            Err(w) => cbor_parse(bytes@) == Err::<Cbor, Seq<char>>(w@),
        },
{
    ciborium::from_reader(bytes).map_err(|e| e.to_string())
}

// ---------------------------------------------------------------------------
// Between values and items.
// ---------------------------------------------------------------------------

/// The item that holds the same tree as a value.
fn item_of(v: Value) -> (i: Item)
    ensures
        i@ == tree(v),
    decreases tree(v),
{
    match open_value(v) {
        Node::Int(n) => Item::Int(n),
        Node::Bytes(b) => Item::Bytes(b),
        Node::Text(t) => Item::Text(t),
        Node::Array(a) => {
            let ghost trees = a@.map_values(|x: Value| tree(x));
            let mut out: Vec<Item> = Vec::new();
            for x in it: a
                invariant
                    tree(v) == Cbor::Array(trees),
                    trees == it.seq().map_values(|x: Value| tree(x)),
                    item_trees(out@) == trees.take(it.index()),
            {
                assert(trees[it.index()] == tree(x));
                assert(decreases_to!(tree(v) => tree(v)->Array_0[it.index()]));
                let ghost prior = out@;
                out.push(item_of(x));
                assert(out@.drop_last() =~= prior);
                assert(trees.take(it.index() + 1) =~= trees.take(it.index()).push(tree(x)));
            }
            assert(trees.take(trees.len() as int) =~= trees);
            Item::Array(out)
        },
        Node::Table(m) => {
            let ghost trees = m@.map_values(|e: (Value, Value)| (tree(e.0), tree(e.1)));
            let mut out: Vec<(Item, Item)> = Vec::new();
            for e in it: m
                invariant
                    tree(v) == Cbor::Table(trees),
                    trees == it.seq().map_values(|e: (Value, Value)| (tree(e.0), tree(e.1))),
                    pair_trees(out@) == trees.take(it.index()),
            {
                assert(trees[it.index()] == (tree(e.0), tree(e.1)));
                assert(decreases_to!(tree(v) => tree(v)->Table_0[it.index()].0));
                assert(decreases_to!(tree(v) => tree(v)->Table_0[it.index()].1));
                let ghost prior = out@;
                let k = item_of(e.0);
                let x = item_of(e.1);
                out.push((k, x));
                assert(out@.drop_last() =~= prior);
                assert(trees.take(it.index() + 1) =~= trees.take(it.index()).push(
                    (k@, x@),
                ));
            }
            assert(trees.take(trees.len() as int) =~= trees);
            Item::Table(out)
        },
        Node::Tag(t, b) => {
            assert(decreases_to!(tree(v) => *tree(v)->Tag_1));
            Item::Tag(t, Box::new(item_of(*b)))
        },
        Node::Null => Item::Null,
        Node::Other => Item::Other,
    }
}

/// The value that holds the same tree as a plain item.
fn value_of(i: Item, Ghost(depth): Ghost<nat>) -> (v: Value)
    requires
        plain(i@, depth),
    ensures
        tree(v) == i@,
    decreases depth,
{
    match i {
        Item::Int(n) => integer_value(n as u64),
        Item::Bytes(b) => bytes_value(b),
        Item::Text(t) => text_value(t),
        Item::Array(a) => {
            let ghost items = a@;
            let mut out: Vec<Value> = Vec::new();
            proof {
                item_trees_index(items);
                plain_elements(item_trees(items), depth);
                assert forall|j: int| 0 <= j < items.len() implies plain(
                    (#[trigger] items[j])@,
                    (depth - 1) as nat,
                ) by {
                    assert(item_trees(items)[j] == items[j]@);
                }
            }
            for x in it: a
                invariant
                    it.seq() == items,
                    depth > 0,
                    out@.len() == it.index(),
                    forall|j: int| 0 <= j < items.len() ==> plain(
                        (#[trigger] items[j])@,
                        (depth - 1) as nat,
                    ),
                    forall|j: int| 0 <= j < it.index() ==> tree(#[trigger] out@[j]) == items[j]@,
            {
                assert(x == items[it.index()]);
                out.push(value_of(x, Ghost((depth - 1) as nat)));
            }
            assert(out@.map_values(|x: Value| tree(x)) =~= item_trees(items));
            array_value(out)
        },
        Item::Table(m) => {
            let ghost items = m@;
            let mut out: Vec<(Value, Value)> = Vec::new();
            proof {
                pair_trees_index(items);
                plain_entries(pair_trees(items), depth);
                assert forall|j: int| 0 <= j < items.len() implies plain(
                    (#[trigger] items[j]).0@,
                    (depth - 1) as nat,
                ) && plain(items[j].1@, (depth - 1) as nat) by {
                    assert(pair_trees(items)[j] == (items[j].0@, items[j].1@));
                }
            }
            for e in it: m
                invariant
                    it.seq() == items,
                    depth > 0,
                    out@.len() == it.index(),
                    forall|j: int| 0 <= j < items.len() ==> plain(
                        (#[trigger] items[j]).0@,
                        (depth - 1) as nat,
                    ) && plain(items[j].1@, (depth - 1) as nat),
                    forall|j: int| 0 <= j < it.index() ==> tree((#[trigger] out@[j]).0)
                        == items[j].0@ && tree(out@[j].1) == items[j].1@,
            {
                assert(e == items[it.index()]);
                let k = value_of(e.0, Ghost((depth - 1) as nat));
                let x = value_of(e.1, Ghost((depth - 1) as nat));
                out.push((k, x));
            }
            assert(out@.map_values(|e: (Value, Value)| (tree(e.0), tree(e.1))) =~= pair_trees(
                items,
            ));
            table_value(out)
        },
        _ => null_value(),
    }
}

/// The bytes of a document.
pub fn write(item: Item) -> (r: Vec<u8>)
    requires
        writable(item@),
    ensures
        r@ == cbor_bytes(item@),
        document(r@) == Some(item@),
        r@.len() > 0,
{
    let v = value_of(item, Ghost(MAX_DEPTH as nat));
    write_value(&v)
}

// ---------------------------------------------------------------------------
// How the items of a document are laid out.
// ---------------------------------------------------------------------------

/// Two bytes as a number, the first one high.
pub open spec fn pair_at(raw: Seq<u8>, at: int) -> int {
    raw[at] * 256 + raw[at + 1]
}

/// Four bytes as a number, the first one high.
pub open spec fn quad_at(raw: Seq<u8>, at: int) -> int {
    pair_at(raw, at) * 65536 + pair_at(raw, at + 2)
}

/// What stands at the start of an item.
#[derive(Clone, Copy)]
pub struct Head {
    /// The kind of item: the top three bits.
    pub kind: u8,
    /// The number that goes with it; none where a length is left open.
    pub count: Option<u64>,
    /// How many bytes this takes.
    pub size: u8,
}

/// The head of the item at this place, where there is one.
pub open spec fn head_at(raw: Seq<u8>, at: int) -> Option<Head> {
    if at < 0 || at >= raw.len() {
        None
    } else {
        let kind = (raw[at] / 32) as u8;
        let low = raw[at] % 32;
        let left = raw.len() - at;
        if low < 24 {
            Some(Head { kind, count: Some(low as u64), size: 1 })
        } else if low == 24 && left >= 2 {
            Some(Head { kind, count: Some(raw[at + 1] as u64), size: 2 })
        } else if low == 25 && left >= 3 {
            Some(Head { kind, count: Some(pair_at(raw, at + 1) as u64), size: 3 })
        } else if low == 26 && left >= 5 {
            Some(Head { kind, count: Some(quad_at(raw, at + 1) as u64), size: 5 })
        } else if low == 27 && left >= 9 {
            Some(
                Head {
                    kind,
                    count: Some((quad_at(raw, at + 1) * 4294967296 + quad_at(raw, at + 5)) as u64),
                    size: 9,
                },
            )
        } else if low == 31 {
            Some(Head { kind, count: None, size: 1 })
        } else {
            None
        }
    }
}

/// The place so many bytes on, or the end.
pub open spec fn forward(raw: Seq<u8>, at: int, n: int) -> int {
    if at + n <= raw.len() {
        at + n
    } else {
        raw.len() as int
    }
}

/// The place after the chunks of a string, which may hold strings in chunks
/// themselves; so many of them are still open.
pub open spec fn past_chunks(raw: Seq<u8>, at: int, open: nat) -> int
    decreases raw.len() - at,
{
    match head_at(raw, at) {
        None => at,
        Some(h) => match h.count {
            Some(n) => past_chunks(raw, forward(raw, at + h.size, n as int), open),
            None => if h.kind != 7 {
                past_chunks(raw, at + h.size, open + 1)
            } else if open > 1 {
                past_chunks(raw, at + h.size, (open - 1) as nat)
            } else {
                at + h.size
            },
        },
    }
}

/// The tree that stands at this place, with what is in chunks marked, and the
/// place after it.
pub open spec fn laid_out(c: Cbor, raw: Seq<u8>, at: int) -> (Cbor, int)
    decreases c,
{
    match head_at(raw, at) {
        None => (c, at),
        Some(h) => {
            let next = at + h.size;
            match c {
                Cbor::Bytes(_) | Cbor::Text(_) => match h.count {
                    Some(n) => (c, forward(raw, next, n as int)),
                    None => (Cbor::Chunked(Box::new(c)), past_chunks(raw, next, 1)),
                },
                Cbor::Array(s) => {
                    let (t, end) = all_laid_out(s, raw, next);
                    (Cbor::Array(t), closed(h, raw, end))
                },
                Cbor::Table(s) => {
                    let (t, end) = pairs_laid_out(s, raw, next);
                    (
                        if h.count is Some {
                            Cbor::Table(t)
                        } else {
                            Cbor::Chunked(Box::new(Cbor::Table(t)))
                        },
                        closed(h, raw, end),
                    )
                },
                Cbor::Tag(t, inner) => {
                    let (b, end) = laid_out(*inner, raw, next);
                    (Cbor::Tag(t, Box::new(b)), end)
                },
                Cbor::Int(_) => (c, past_number(h, raw, next)),
                _ => (c, next),
            }
        },
    }
}

/// The place after a number. A large one is a tag and a byte string.
pub open spec fn past_number(h: Head, raw: Seq<u8>, next: int) -> int {
    if h.kind == 6 {
        match head_at(raw, next) {
            Some(g) => match g.count {
                Some(n) => forward(raw, next + g.size, n as int),
                None => next,
            },
            None => next,
        }
    } else {
        next
    }
}

/// The place after what ends an array or table, where that is told at its end.
pub open spec fn closed(h: Head, raw: Seq<u8>, end: int) -> int {
    if h.count is Some {
        end
    } else {
        forward(raw, end, 1)
    }
}

/// The trees that stand one after the other from this place.
pub open spec fn all_laid_out(s: Seq<Cbor>, raw: Seq<u8>, at: int) -> (Seq<Cbor>, int)
    decreases s,
{
    if s.len() == 0 {
        (Seq::empty(), at)
    } else {
        let (before, mid) = all_laid_out(s.drop_last(), raw, at);
        let (last, end) = laid_out(s.last(), raw, mid);
        (before.push(last), end)
    }
}

/// The entries that stand one after the other from this place.
pub open spec fn pairs_laid_out(s: Seq<(Cbor, Cbor)>, raw: Seq<u8>, at: int) -> (
    Seq<(Cbor, Cbor)>,
    int,
)
    decreases s,
{
    if s.len() == 0 {
        (Seq::empty(), at)
    } else {
        let (before, mid) = pairs_laid_out(s.drop_last(), raw, at);
        let (k, then) = laid_out(s.last().0, raw, mid);
        let (v, end) = laid_out(s.last().1, raw, then);
        (before.push((k, v)), end)
    }
}

/// The document that these bytes begin with, if any: the tree `ciborium` finds,
/// with what is in chunks marked.
pub open spec fn document(raw: Seq<u8>) -> Option<Cbor> {
    match cbor_parse(raw) {
        Ok(c) => Some(laid_out(c, raw, 0).0),
        Err(_) => None,
    }
}

/// What is said of bytes that do not hold what they should: what `ciborium` says
/// where they hold no document, and these words where they hold another one.
pub open spec fn complaint_of(raw: Seq<u8>, words: Seq<char>) -> Seq<char> {
    match cbor_parse(raw) {
        Ok(_) => words,
        Err(w) => w,
    }
}

/// Two bytes as a number.
fn read_pair(raw: &[u8], at: usize) -> (r: u64)
    requires
        at + 2 <= raw.len(),
    ensures
        r == pair_at(raw@, at as int),
        r < 65536,
{
    raw[at] as u64 * 256 + raw[at + 1] as u64
}

/// Four bytes as a number.
fn read_quad(raw: &[u8], at: usize) -> (r: u64)
    requires
        at + 4 <= raw.len(),
    ensures
        r == quad_at(raw@, at as int),
        r < 4294967296,
{
    read_pair(raw, at) * 65536 + read_pair(raw, at + 2)
}

/// The head of the item at this place, where there is one.
fn read_head(raw: &[u8], at: usize) -> (r: Option<Head>)
    requires
        at <= raw@.len(),
    ensures
        r == head_at(raw@, at as int),
        r matches Some(h) ==> 1 <= h.size && at + h.size <= raw@.len() && at + h.size
            <= usize::MAX,
{
    if at >= raw.len() {
        return None;
    }
    let kind: u8 = raw[at] / 32;
    let low: u8 = raw[at] % 32;
    let left: usize = raw.len() - at;
    if low < 24 {
        Some(Head { kind, count: Some(low as u64), size: 1 })
    } else if low == 24 && left >= 2 {
        Some(Head { kind, count: Some(raw[at + 1] as u64), size: 2 })
    } else if low == 25 && left >= 3 {
        Some(Head { kind, count: Some(read_pair(raw, at + 1)), size: 3 })
    } else if low == 26 && left >= 5 {
        Some(Head { kind, count: Some(read_quad(raw, at + 1)), size: 5 })
    } else if low == 27 && left >= 9 {
        let high: u64 = read_quad(raw, at + 1);
        let rest: u64 = read_quad(raw, at + 5);
        Some(Head { kind, count: Some(high * 4294967296 + rest), size: 9 })
    } else if low == 31 {
        Some(Head { kind, count: None, size: 1 })
    } else {
        None
    }
}

/// The place so many bytes on, or the end.
fn step_forward(raw: &[u8], at: usize, n: u64) -> (r: usize)
    requires
        at <= raw@.len(),
    ensures
        r == forward(raw@, at as int, n as int),
        at <= r <= raw@.len(),
{
    let left: usize = raw.len() - at;
    if n <= left as u64 {
        at + n as usize
    } else {
        raw.len()
    }
}

/// The place after the chunks of a string.
fn skip_chunks(raw: &[u8], start: usize) -> (r: usize)
    requires
        1 <= start <= raw@.len(),
    ensures
        r == past_chunks(raw@, start as int, 1),
        start <= r <= raw@.len(),
{
    let mut at: usize = start;
    let mut open: usize = 1;
    loop
        invariant
            1 <= start <= at <= raw@.len(),
            1 <= open <= at - start + 1,
            past_chunks(raw@, at as int, open as nat) == past_chunks(raw@, start as int, 1),
        decreases raw@.len() - at,
    {
        let h = match read_head(raw, at) {
            Some(h) => h,
            None => return at,
        };
        let next: usize = at + h.size as usize;
        match h.count {
            Some(n) => {
                at = step_forward(raw, next, n);
            },
            None => {
                if h.kind != 7 {
                    open = open + 1;
                } else if open > 1 {
                    open = open - 1;
                } else {
                    return next;
                }
                at = next;
            },
        }
    }
}

/// The place after a number.
fn skip_number(h: Head, raw: &[u8], next: usize) -> (r: usize)
    requires
        next <= raw@.len(),
    ensures
        r == past_number(h, raw@, next as int),
        r <= raw@.len(),
{
    if h.kind == 6 {
        match read_head(raw, next) {
            Some(g) => match g.count {
                Some(n) => step_forward(raw, next + g.size as usize, n),
                None => next,
            },
            None => next,
        }
    } else {
        next
    }
}

/// The place after what ends an array or table, where that is told at its end.
fn close(h: Head, raw: &[u8], end: usize) -> (r: usize)
    requires
        end <= raw@.len(),
    ensures
        r == closed(h, raw@, end as int),
        r <= raw@.len(),
{
    if h.count.is_some() {
        end
    } else {
        step_forward(raw, end, 1)
    }
}

/// The item at this place with what is in chunks marked, and the place after
/// it.
fn mark_chunks(item: Item, raw: &[u8], at: usize) -> (r: (Item, usize))
    requires
        at <= raw@.len(),
    ensures
        (r.0@, r.1 as int) == laid_out(item@, raw@, at as int),
        r.1 <= raw@.len(),
    decreases item@,
{
    let h = match read_head(raw, at) {
        Some(h) => h,
        None => return (item, at),
    };
    let next: usize = at + h.size as usize;
    match item {
        Item::Bytes(b) => match h.count {
            Some(n) => (Item::Bytes(b), step_forward(raw, next, n)),
            None => {
                let whole = Item::Bytes(b);
                assert(whole@ == item@);
                (Item::Chunked(Box::new(whole)), skip_chunks(raw, next))
            },
        },
        Item::Text(t) => match h.count {
            Some(n) => (Item::Text(t), step_forward(raw, next, n)),
            None => {
                let whole = Item::Text(t);
                assert(whole@ == item@);
                (Item::Chunked(Box::new(whole)), skip_chunks(raw, next))
            },
        },
        Item::Array(a) => {
            let ghost trees = item_trees(a@);
            proof {
                item_trees_index(a@);
            }
            let mut out: Vec<Item> = Vec::new();
            let mut end: usize = next;
            assert(trees.take(0) =~= Seq::empty());
            for x in it: a
                invariant
                    item@ == Cbor::Array(trees),
                    trees.len() == it.seq().len(),
                    forall|j: int| 0 <= j < trees.len() ==> #[trigger] trees[j] == it.seq()[j]@,
                    end <= raw@.len(),
                    (item_trees(out@), end as int) == all_laid_out(
                        trees.take(it.index()),
                        raw@,
                        next as int,
                    ),
            {
                assert(trees[it.index()] == x@);
                assert(decreases_to!(item@ => item@->Array_0[it.index()]));
                let ghost prior = out@;
                let (y, then) = mark_chunks(x, raw, end);
                out.push(y);
                end = then;
                assert(out@.drop_last() =~= prior);
                assert(trees.take(it.index() + 1).drop_last() =~= trees.take(it.index()));
                assert(trees.take(it.index() + 1).last() == trees[it.index()]);
            }
            assert(trees.take(trees.len() as int) =~= trees);
            (Item::Array(out), close(h, raw, end))
        },
        Item::Table(m) => {
            let ghost trees = pair_trees(m@);
            proof {
                pair_trees_index(m@);
            }
            let mut out: Vec<(Item, Item)> = Vec::new();
            let mut end: usize = next;
            assert(trees.take(0) =~= Seq::empty());
            for e in it: m
                invariant
                    item@ == Cbor::Table(trees),
                    trees.len() == it.seq().len(),
                    forall|j: int|
                        0 <= j < trees.len() ==> #[trigger] trees[j] == (
                            it.seq()[j].0@,
                            it.seq()[j].1@,
                        ),
                    end <= raw@.len(),
                    (pair_trees(out@), end as int) == pairs_laid_out(
                        trees.take(it.index()),
                        raw@,
                        next as int,
                    ),
            {
                assert(trees[it.index()] == (e.0@, e.1@));
                assert(decreases_to!(item@ => item@->Table_0[it.index()].0));
                assert(decreases_to!(item@ => item@->Table_0[it.index()].1));
                let ghost prior = out@;
                let (k, mid) = mark_chunks(e.0, raw, end);
                let (v, then) = mark_chunks(e.1, raw, mid);
                out.push((k, v));
                end = then;
                assert(out@.drop_last() =~= prior);
                assert(trees.take(it.index() + 1).drop_last() =~= trees.take(it.index()));
                assert(trees.take(it.index() + 1).last() == trees[it.index()]);
            }
            assert(trees.take(trees.len() as int) =~= trees);
            let table = Item::Table(out);
            assert(table@ == Cbor::Table(pair_trees(out@)));
            if h.count.is_some() {
                (table, close(h, raw, end))
            } else {
                (Item::Chunked(Box::new(table)), close(h, raw, end))
            }
        },
        Item::Tag(t, b) => {
            assert(decreases_to!(item@ => *item@->Tag_1));
            let (inner, end) = mark_chunks(*b, raw, next);
            (Item::Tag(t, Box::new(inner)), end)
        },
        Item::Int(n) => (Item::Int(n), skip_number(h, raw, next)),
        Item::Chunked(b) => (Item::Chunked(b), next),
        Item::Null => (Item::Null, next),
        Item::Other => (Item::Other, next),
    }
}

/// The document at the start of these bytes; `None` where there is none.
pub fn read(bytes: &[u8]) -> (r: Option<Item>)
    ensures
        match r {
            Some(i) => document(bytes@) == Some(i@),
            None => document(bytes@) is None,
        },
{
    match read_value(bytes) {
        Ok(v) => Some(mark_chunks(item_of(v), bytes, 0).0),
        Err(_) => None,
    }
}

/// What is said of bytes that do not hold what they should.
pub fn complaint(bytes: &[u8], words: &str) -> (r: String)
    ensures
        r@ == complaint_of(bytes@, words@),
{
    match read_value(bytes) {
        Ok(_) => words.to_owned(),
        Err(w) => w,
    }
}

// ---------------------------------------------------------------------------
// Reading a tree. Tags carry no meaning here and are looked through; the
// fields of a table may stand in any order, and fields nobody asks for are
// passed over. A field or a variant may be named by text or by its bytes. What
// comes in chunks is read where it can be gathered up: it is no name, no
// variant and no byte string of a fixed size.
// ---------------------------------------------------------------------------

/// The tree under any tags.
pub open spec fn bare(c: Cbor) -> Cbor
    decreases c,
{
    match c {
        Cbor::Tag(_, inner) => bare(*inner),
        _ => c,
    }
}

/// The tree under any tags, gathered up where it is in chunks.
pub open spec fn gathered(c: Cbor) -> Cbor {
    match bare(c) {
        Cbor::Chunked(inner) => *inner,
        b => b,
    }
}

/// The text a tree holds, if it is text.
pub open spec fn as_text(c: Cbor) -> Option<Seq<char>> {
    match gathered(c) {
        Cbor::Text(t) => Some(t),
        _ => None,
    }
}

/// The number a tree holds, if it is one from 0 to `max`.
pub open spec fn as_number(c: Cbor, max: int) -> Option<int> {
    match bare(c) {
        Cbor::Int(n) => if 0 <= n <= max {
            Some(n)
        } else {
            None
        },
        _ => None,
    }
}

/// The byte string a tree holds: a byte string, or an array of bytes.
pub open spec fn as_bytes(c: Cbor) -> Option<Seq<u8>> {
    match gathered(c) {
        Cbor::Bytes(b) => Some(b),
        Cbor::Array(s) => if forall|i: int|
            0 <= i < s.len() ==> as_number(#[trigger] s[i], 255) is Some {
            Some(Seq::new(s.len(), |i: int| as_number(s[i], 255)->0 as u8))
        } else {
            None
        },
        _ => None,
    }
}

/// The byte string a tree holds in one piece.
pub open spec fn as_piece(c: Cbor) -> Option<Seq<u8>> {
    if bare(c) is Chunked {
        None
    } else {
        as_bytes(c)
    }
}

/// A byte string of exactly `n` bytes, in one piece.
pub open spec fn as_sized(c: Cbor, n: nat) -> Option<Seq<u8>> {
    match as_piece(c) {
        Some(b) => if b.len() == n {
            Some(b)
        } else {
            None
        },
        None => None,
    }
}

/// The elements a tree holds, if it is an array, or an empty byte string, which
/// is a list without elements.
pub open spec fn as_list(c: Cbor) -> Option<Seq<Cbor>> {
    match gathered(c) {
        Cbor::Array(s) => Some(s),
        Cbor::Bytes(b) => if b.len() == 0 {
            Some(Seq::empty())
        } else {
            None
        },
        _ => None,
    }
}

/// How many bytes a name has, at most.
pub const LONGEST_NAME: usize = 4096;

/// The tree can name something: it is text or a byte string, and not too long.
pub open spec fn is_name(c: Cbor) -> bool {
    match bare(c) {
        Cbor::Text(t) => bytes::text_bytes(t).len() <= LONGEST_NAME,
        Cbor::Bytes(b) => b.len() <= LONGEST_NAME,
        _ => false,
    }
}

/// A character takes at most four bytes.
proof fn bytes_of_text(t: Seq<char>)
    ensures
        bytes::text_bytes(t).len() <= 4 * t.len(),
    decreases t.len(),
{
    if t.len() > 0 {
        bytes_of_text(t.drop_first());
    }
}

/// The tree names `name`: it is that text, or the bytes of it.
pub open spec fn is_named(c: Cbor, name: Seq<char>) -> bool {
    match bare(c) {
        Cbor::Text(t) => t == name,
        Cbor::Bytes(b) => b == bytes::text_bytes(name),
        _ => false,
    }
}

/// The entries a tree holds, if it is a table whose keys are all names.
pub open spec fn as_table(c: Cbor) -> Option<Seq<(Cbor, Cbor)>> {
    match gathered(c) {
        Cbor::Table(s) => if forall|i: int| 0 <= i < s.len() ==> is_name((#[trigger] s[i]).0) {
            Some(s)
        } else {
            None
        },
        _ => None,
    }
}

/// What looking for one field of a table finds.
pub enum Lookup {
    Missing,
    One(Cbor),
    Repeated,
}

/// Look for the field called `name`.
pub open spec fn lookup(s: Seq<(Cbor, Cbor)>, name: Seq<char>) -> Lookup
    decreases s.len(),
{
    if s.len() == 0 {
        Lookup::Missing
    } else {
        let rest = lookup(s.drop_last(), name);
        if is_named(s.last().0, name) {
            if rest is Missing {
                Lookup::One(s.last().1)
            } else {
                Lookup::Repeated
            }
        } else {
            rest
        }
    }
}

/// The field called `name`, where the table has exactly one.
pub open spec fn field(s: Seq<(Cbor, Cbor)>, name: Seq<char>) -> Option<Cbor> {
    match lookup(s, name) {
        Lookup::One(c) => Some(c),
        _ => None,
    }
}

/// The field called `name`, null where the table has none, and `None` where it
/// has several.
pub open spec fn field_or_null(s: Seq<(Cbor, Cbor)>, name: Seq<char>) -> Option<Cbor> {
    match lookup(s, name) {
        Lookup::One(c) => Some(c),
        Lookup::Missing => Some(Cbor::Null),
        Lookup::Repeated => None,
    }
}

/// The text under a name.
pub open spec fn text_at(s: Seq<(Cbor, Cbor)>, name: Seq<char>) -> Option<Seq<char>> {
    match field(s, name) {
        Some(c) => as_text(c),
        None => None,
    }
}

/// The number from 0 to `max` under a name.
pub open spec fn number_at(s: Seq<(Cbor, Cbor)>, name: Seq<char>, max: int) -> Option<int> {
    match field(s, name) {
        Some(c) => as_number(c, max),
        None => None,
    }
}

/// The byte string of `n` bytes under a name.
pub open spec fn sized_at(s: Seq<(Cbor, Cbor)>, name: Seq<char>, n: nat) -> Option<Seq<u8>> {
    match field(s, name) {
        Some(c) => as_sized(c, n),
        None => None,
    }
}

/// Null, or a byte string of 32 bytes.
pub open spec fn as_nullable(c: Cbor) -> Option<Option<Seq<u8>>> {
    match c {
        Cbor::Null => Some(None),
        _ => match as_sized(c, 32) {
            Some(b) => Some(Some(b)),
            None => None,
        },
    }
}

/// Null, or a byte string of 32 bytes, as a document.
pub open spec fn nullable(b: Option<Seq<u8>>) -> Cbor {
    match b {
        Some(b) => Cbor::Bytes(b),
        None => Cbor::Null,
    }
}

/// What stands under a name: null, or 32 bytes.
pub open spec fn nullable_at(s: Seq<(Cbor, Cbor)>, name: Seq<char>) -> Option<Option<Seq<u8>>> {
    match field(s, name) {
        Some(c) => as_nullable(c),
        None => None,
    }
}

/// What stands under a name: null, or 32 bytes. No entry counts as null.
pub open spec fn nullable_or_absent_at(
    s: Seq<(Cbor, Cbor)>,
    name: Seq<char>,
) -> Option<Option<Seq<u8>>> {
    match field_or_null(s, name) {
        Some(c) => as_nullable(c),
        None => None,
    }
}

/// The text a tree names, if it does.
pub open spec fn name_text(c: Cbor) -> Option<Seq<char>> {
    match bare(c) {
        Cbor::Text(t) => Some(t),
        Cbor::Bytes(b) => if vstd::utf8::valid_utf8(b) {
            Some(vstd::utf8::decode_utf8(b))
        } else {
            None
        },
        _ => None,
    }
}

/// The variant of an enumeration that a tree names: its name alone, or a table
/// of one entry with the name and what goes with it.
pub open spec fn as_variant(c: Cbor) -> Option<(Seq<char>, Option<Cbor>)> {
    match bare(c) {
        Cbor::Text(t) => Some((t, None)),
        Cbor::Table(s) => if s.len() == 1 {
            match name_text(s[0].0) {
                Some(t) => Some((t, Some(s[0].1))),
                None => None,
            }
        } else {
            None
        },
        _ => None,
    }
}

/// The fields that go with a variant: a table of them, or an array of just
/// their values in the order of `names`. A tag is not looked through here.
pub open spec fn as_fields(c: Cbor, names: Seq<Seq<char>>) -> Option<Seq<(Cbor, Cbor)>> {
    match c {
        Cbor::Table(_) => as_table(c),
        Cbor::Chunked(_) => as_table(c),
        Cbor::Array(s) => if s.len() == names.len() {
            Some(Seq::new(s.len(), |i: int| row(names[i], s[i])))
        } else {
            None
        },
        _ => None,
    }
}

/// A variant with what goes with it, as a document.
pub open spec fn variant(name: Seq<char>, inner: Cbor) -> Cbor {
    Cbor::Table(seq![row(name, inner)])
}

/// A name that no entry has is not found.
pub proof fn absent(s: Seq<(Cbor, Cbor)>, name: Seq<char>)
    requires
        forall|j: int| 0 <= j < s.len() ==> !is_named((#[trigger] s[j]).0, name),
    ensures
        lookup(s, name) is Missing,
    decreases s.len(),
{
    if s.len() > 0 {
        assert(!is_named(s[s.len() - 1].0, name));
        absent(s.drop_last(), name);
    }
}

/// A name that one entry has is found there.
pub proof fn present(s: Seq<(Cbor, Cbor)>, i: int, name: Seq<char>)
    requires
        0 <= i < s.len(),
        is_named(s[i].0, name),
        name.len() <= 64,
        forall|j: int| 0 <= j < s.len() && j != i ==> !is_named((#[trigger] s[j]).0, name),
    ensures
        lookup(s, name) == Lookup::One(s[i].1),
        field(s, name) == Some(s[i].1),
        field_or_null(s, name) == Some(s[i].1),
        is_name(s[i].0),
    decreases s.len(),
{
    let rest = s.drop_last();
    bytes_of_text(name);
    if i == s.len() - 1 {
        absent(rest, name);
    } else {
        assert(!is_named(s[s.len() - 1].0, name));
        present(rest, i, name);
    }
}

/// One entry of a table: a text key and its value.
pub open spec fn row(name: Seq<char>, value: Cbor) -> (Cbor, Cbor) {
    (Cbor::Text(name), value)
}

/// The item under any tags.
pub fn bare_item(item: &Item) -> (r: &Item)
    ensures
        r@ == bare(item@),
        !(r is Tag),
    decreases item,
{
    match item {
        Item::Tag(_, inner) => bare_item(inner),
        _ => item,
    }
}

/// The item under any tags, gathered up where it is in chunks.
pub fn gathered_item(item: &Item) -> (r: &Item)
    ensures
        r@ == gathered(item@),
{
    match bare_item(item) {
        Item::Chunked(inner) => inner,
        b => b,
    }
}

/// The text an item holds, if it is text.
pub fn text_of(item: &Item) -> (r: Option<&String>)
    ensures
        match r {
            Some(t) => as_text(item@) == Some(t@),
            None => as_text(item@) is None,
        },
{
    match gathered_item(item) {
        Item::Text(t) => Some(t),
        _ => None,
    }
}

/// Whether an item can name something.
pub fn names_something(item: &Item) -> (r: bool)
    ensures
        r == is_name(item@),
{
    match bare_item(item) {
        Item::Text(t) => t.as_str().as_bytes().len() <= LONGEST_NAME,
        Item::Bytes(b) => b.len() <= LONGEST_NAME,
        _ => false,
    }
}

/// Whether an item names `name`.
pub fn names(item: &Item, name: &str) -> (r: bool)
    ensures
        r == is_named(item@, name@),
{
    match bare_item(item) {
        Item::Text(t) => same_text(t.as_str(), name),
        Item::Bytes(b) => same_bytes(b.as_slice(), name.as_bytes()),
        _ => false,
    }
}

/// The text an item names, if it does, copied.
pub fn name_of(item: &Item) -> (r: Option<String>)
    ensures
        match r {
            Some(t) => name_text(item@) == Some(t@),
            None => name_text(item@) is None,
        },
{
    match bare_item(item) {
        Item::Text(t) => Some(t.clone()),
        Item::Bytes(b) => match text_of_bytes(copy_bytes(b.as_slice())) {
            Some(t) => {
                proof {
                    vstd::utf8::encode_utf8_valid_utf8(t@);
                    vstd::utf8::encode_utf8_decode_utf8(t@);
                }
                Some(t)
            },
            None => None,
        },
        _ => None,
    }
}

/// The number an item holds, if it is one from 0 to `max`.
pub fn number_of(item: &Item, max: u64) -> (r: Option<u64>)
    ensures
        match r {
            Some(n) => as_number(item@, max as int) == Some(n as int),
            None => as_number(item@, max as int) is None,
        },
{
    match bare_item(item) {
        Item::Int(n) => if 0 <= *n && *n <= max as i128 {
            Some(*n as u64)
        } else {
            None
        },
        _ => None,
    }
}

/// The byte string an item holds: a byte string, or an array of bytes.
pub fn bytes_of(item: &Item) -> (r: Option<Vec<u8>>)
    ensures
        match r {
            Some(b) => as_bytes(item@) == Some(b@),
            None => as_bytes(item@) is None,
        },
{
    match gathered_item(item) {
        Item::Bytes(b) => Some(copy_bytes(b.as_slice())),
        Item::Array(a) => {
            let ghost s = item_trees(a@);
            proof {
                item_trees_index(a@);
            }
            let mut out: Vec<u8> = Vec::new();
            let mut i: usize = 0;
            while i < a.len()
                invariant
                    i <= a.len(),
                    s == item_trees(a@),
                    s.len() == a.len(),
                    forall|j: int| 0 <= j < s.len() ==> #[trigger] s[j] == a@[j]@,
                    gathered(item@) == Cbor::Array(s),
                    out@.len() == i,
                    forall|j: int| 0 <= j < i ==> as_number(#[trigger] s[j], 255) == Some(
                        out@[j] as int,
                    ),
                decreases a.len() - i,
            {
                match number_of(&a[i], 255) {
                    Some(n) => out.push(n as u8),
                    None => {
                        assert(as_number(s[i as int], 255) is None);
                        return None;
                    },
                }
                i += 1;
            }
            assert(out@ =~= Seq::new(s.len(), |i: int| as_number(s[i], 255)->0 as u8));
            Some(out)
        },
        _ => None,
    }
}

/// The byte string an item holds in one piece.
pub fn piece_of(item: &Item) -> (r: Option<Vec<u8>>)
    ensures
        match r {
            Some(b) => as_piece(item@) == Some(b@),
            None => as_piece(item@) is None,
        },
{
    match bare_item(item) {
        Item::Chunked(_) => None,
        _ => bytes_of(item),
    }
}

/// Whether an item is a list without elements that is written as a byte string.
pub fn is_empty_string(item: &Item) -> (r: bool)
    ensures
        r == (gathered(item@) matches Cbor::Bytes(b) && b.len() == 0),
{
    match gathered_item(item) {
        Item::Bytes(b) => b.len() == 0,
        _ => false,
    }
}

/// The elements of an item, if it is an array.
pub fn array_of(item: &Item) -> (r: Option<&Vec<Item>>)
    ensures
        match r {
            Some(a) => gathered(item@) == Cbor::Array(item_trees(a@)),
            None => !(gathered(item@) is Array),
        },
{
    match gathered_item(item) {
        Item::Array(a) => Some(a),
        _ => None,
    }
}

/// The entries an item holds, if it is a table whose keys are all names.
pub fn table_of(item: &Item) -> (r: Option<&Vec<(Item, Item)>>)
    ensures
        match r {
            Some(m) => as_table(item@) == Some(pair_trees(m@)),
            None => as_table(item@) is None,
        },
{
    match gathered_item(item) {
        Item::Table(m) => {
            let ghost s = pair_trees(m@);
            proof {
                pair_trees_index(m@);
            }
            let mut i: usize = 0;
            while i < m.len()
                invariant
                    i <= m.len(),
                    s == pair_trees(m@),
                    s.len() == m.len(),
                    forall|j: int| 0 <= j < s.len() ==> #[trigger] s[j] == (m@[j].0@, m@[j].1@),
                    gathered(item@) == Cbor::Table(s),
                    forall|j: int| 0 <= j < i ==> is_name((#[trigger] s[j]).0),
                decreases m.len() - i,
            {
                if !names_something(&m[i].0) {
                    assert(!is_name(s[i as int].0));
                    return None;
                }
                i += 1;
            }
            Some(m)
        },
        _ => None,
    }
}

/// What [`find`] finds.
pub enum Found<'a> {
    Missing,
    One(&'a Item),
    Repeated,
}

/// Look for the field called `name`.
pub fn find<'a>(m: &'a Vec<(Item, Item)>, name: &str) -> (r: Found<'a>)
    ensures
        match r {
            Found::Missing => lookup(pair_trees(m@), name@) is Missing,
            Found::One(i) => lookup(pair_trees(m@), name@) == Lookup::One(i@),
            Found::Repeated => lookup(pair_trees(m@), name@) is Repeated,
        },
{
    let ghost s = pair_trees(m@);
    let mut r: Found<'a> = Found::Missing;
    let mut i: usize = 0;
    proof {
        pair_trees_index(m@);
    }
    while i < m.len()
        invariant
            i <= m.len(),
            s == pair_trees(m@),
            s.len() == m.len(),
            forall|j: int| 0 <= j < s.len() ==> #[trigger] s[j] == (m@[j].0@, m@[j].1@),
            match r {
                Found::Missing => lookup(s.take(i as int), name@) is Missing,
                Found::One(x) => lookup(s.take(i as int), name@) == Lookup::One(x@),
                Found::Repeated => lookup(s.take(i as int), name@) is Repeated,
            },
        decreases m.len() - i,
    {
        assert(s.take(i + 1).drop_last() =~= s.take(i as int));
        assert(s.take(i + 1).last() == s[i as int]);
        if names(&m[i].0, name) {
            r = match r {
                Found::Missing => Found::One(&m[i].1),
                _ => Found::Repeated,
            };
        }
        i += 1;
    }
    assert(s.take(i as int) =~= s);
    r
}

/// The field called `name`, where the table has exactly one.
pub fn field_of<'a>(m: &'a Vec<(Item, Item)>, name: &str) -> (r: Option<&'a Item>)
    ensures
        match r {
            Some(i) => field(pair_trees(m@), name@) == Some(i@),
            None => field(pair_trees(m@), name@) is None,
        },
{
    match find(m, name) {
        Found::One(i) => Some(i),
        _ => None,
    }
}

/// The text under a name, copied.
pub fn text_field(m: &Vec<(Item, Item)>, name: &str) -> (r: Option<String>)
    ensures
        match r {
            Some(t) => text_at(pair_trees(m@), name@) == Some(t@),
            None => text_at(pair_trees(m@), name@) is None,
        },
{
    match field_of(m, name) {
        Some(i) => match text_of(i) {
            Some(t) => Some(t.clone()),
            None => None,
        },
        None => None,
    }
}

/// The number from 0 to `max` under a name.
pub fn number_field(m: &Vec<(Item, Item)>, name: &str, max: u64) -> (r: Option<u64>)
    ensures
        match r {
            Some(n) => number_at(pair_trees(m@), name@, max as int) == Some(n as int) && n <= max,
            None => number_at(pair_trees(m@), name@, max as int) is None,
        },
{
    match field_of(m, name) {
        Some(i) => number_of(i, max),
        None => None,
    }
}

/// The byte string of 32 bytes under a name.
pub fn field32(m: &Vec<(Item, Item)>, name: &str) -> (r: Option<[u8; 32]>)
    ensures
        match r {
            Some(b) => sized_at(pair_trees(m@), name@, 32) == Some(b@),
            None => sized_at(pair_trees(m@), name@, 32) is None,
        },
{
    match field_of(m, name) {
        Some(i) => match piece_of(i) {
            Some(b) => array32(b.as_slice()),
            None => None,
        },
        None => None,
    }
}

/// The value of an optional 32-byte string.
pub open spec fn option_view(b: Option<[u8; 32]>) -> Option<Seq<u8>> {
    match b {
        Some(b) => Some(b@),
        None => None,
    }
}

/// Null, or a byte string of 32 bytes.
pub fn nullable_of(item: &Item) -> (r: Option<Option<[u8; 32]>>)
    ensures
        match r {
            Some(b) => as_nullable(item@) == Some(option_view(b)),
            None => as_nullable(item@) is None,
        },
{
    match item {
        Item::Null => Some(None),
        _ => match piece_of(item) {
            Some(b) => match array32(b.as_slice()) {
                Some(a) => Some(Some(a)),
                None => None,
            },
            None => None,
        },
    }
}

/// What stands under a name: null, or 32 bytes.
pub fn nullable_field(m: &Vec<(Item, Item)>, name: &str) -> (r: Option<Option<[u8; 32]>>)
    ensures
        match r {
            Some(b) => nullable_at(pair_trees(m@), name@) == Some(option_view(b)),
            None => nullable_at(pair_trees(m@), name@) is None,
        },
{
    match field_of(m, name) {
        Some(i) => nullable_of(i),
        None => None,
    }
}

/// What stands under a name: null, or 32 bytes. No entry counts as null.
pub fn nullable_or_absent_field(m: &Vec<(Item, Item)>, name: &str) -> (r: Option<
    Option<[u8; 32]>,
>)
    ensures
        match r {
            Some(b) => nullable_or_absent_at(pair_trees(m@), name@) == Some(option_view(b)),
            None => nullable_or_absent_at(pair_trees(m@), name@) is None,
        },
{
    match find(m, name) {
        Found::One(i) => nullable_of(i),
        Found::Missing => Some(None),
        Found::Repeated => None,
    }
}

/// An optional 32-byte string as an item.
pub fn nullable_item(b: &Option<[u8; 32]>) -> (r: Item)
    ensures
        r@ == nullable(option_view(*b)),
{
    match b {
        Some(a) => bytes_item(a.as_slice()),
        None => Item::Null,
    }
}

/// The variant of an enumeration that an item names.
pub fn variant_of(item: &Item) -> (r: Option<(String, Option<&Item>)>)
    ensures
        match r {
            Some((t, Some(i))) => as_variant(item@) == Some((t@, Some(i@))),
            Some((t, None)) => as_variant(item@) == Some((t@, None::<Cbor>)),
            None => as_variant(item@) is None,
        },
{
    match bare_item(item) {
        Item::Text(t) => Some((t.clone(), None)),
        Item::Table(m) => {
            proof {
                pair_trees_index(m@);
            }
            if m.len() != 1 {
                return None;
            }
            assert(pair_trees(m@)[0] == (m@[0].0@, m@[0].1@));
            match name_of(&m[0].0) {
                Some(t) => Some((t, Some(&m[0].1))),
                None => None,
            }
        },
        _ => None,
    }
}

/// A copy of an item.
pub fn copy_item(item: &Item) -> (r: Item)
    ensures
        r@ == item@,
    decreases item@,
{
    match item {
        Item::Int(n) => Item::Int(*n),
        Item::Bytes(b) => Item::Bytes(copy_bytes(b.as_slice())),
        Item::Text(t) => Item::Text(t.clone()),
        Item::Array(a) => {
            let mut out: Vec<Item> = Vec::new();
            let mut i: usize = 0;
            proof {
                item_trees_index(a@);
            }
            while i < a.len()
                invariant
                    i <= a.len(),
                    item@ == Cbor::Array(item_trees(a@)),
                    item_trees(a@).len() == a.len(),
                    forall|j: int| 0 <= j < a.len() ==> #[trigger] item_trees(a@)[j] == a@[j]@,
                    item_trees(out@) == item_trees(a@.take(i as int)),
                decreases a.len() - i,
            {
                assert(item_trees(a@)[i as int] == a@[i as int]@);
                assert(decreases_to!(item@ => item@->Array_0[i as int]));
                let ghost prior = out@;
                out.push(copy_item(&a[i]));
                assert(out@.drop_last() =~= prior);
                assert(a@.take(i + 1).drop_last() =~= a@.take(i as int));
                i += 1;
            }
            assert(a@.take(i as int) =~= a@);
            Item::Array(out)
        },
        Item::Table(m) => {
            let mut out: Vec<(Item, Item)> = Vec::new();
            let mut i: usize = 0;
            proof {
                pair_trees_index(m@);
            }
            while i < m.len()
                invariant
                    i <= m.len(),
                    item@ == Cbor::Table(pair_trees(m@)),
                    pair_trees(m@).len() == m.len(),
                    forall|j: int|
                        0 <= j < m.len() ==> #[trigger] pair_trees(m@)[j] == (m@[j].0@, m@[j].1@),
                    pair_trees(out@) == pair_trees(m@.take(i as int)),
                decreases m.len() - i,
            {
                assert(pair_trees(m@)[i as int] == (m@[i as int].0@, m@[i as int].1@));
                assert(decreases_to!(item@ => item@->Table_0[i as int].0));
                assert(decreases_to!(item@ => item@->Table_0[i as int].1));
                let ghost prior = out@;
                out.push((copy_item(&m[i].0), copy_item(&m[i].1)));
                assert(out@.drop_last() =~= prior);
                assert(m@.take(i + 1).drop_last() =~= m@.take(i as int));
                i += 1;
            }
            assert(m@.take(i as int) =~= m@);
            Item::Table(out)
        },
        Item::Tag(t, b) => {
            assert(decreases_to!(item@ => *item@->Tag_1));
            Item::Tag(*t, Box::new(copy_item(b)))
        },
        Item::Chunked(b) => {
            assert(decreases_to!(item@ => *item@->Chunked_0));
            Item::Chunked(Box::new(copy_item(b)))
        },
        Item::Null => Item::Null,
        Item::Other => Item::Other,
    }
}

/// The fields that go with a variant: those of a table, or those made of an
/// array.
pub enum Fields<'a> {
    Table(&'a Vec<(Item, Item)>),
    Made(Vec<(Item, Item)>),
}

impl<'a> Fields<'a> {
    /// The entries.
    pub open spec fn entries(&self) -> Seq<(Item, Item)> {
        match self {
            Fields::Table(m) => m@,
            Fields::Made(m) => m@,
        }
    }

    /// The entries.
    pub fn rows(&self) -> (r: &Vec<(Item, Item)>)
        ensures
            r@ == self.entries(),
    {
        match self {
            Fields::Table(m) => *m,
            Fields::Made(m) => m,
        }
    }
}

/// The fields that go with a variant that has one.
pub fn fields1<'a>(item: &'a Item, first: &str) -> (r: Option<Fields<'a>>)
    ensures
        match r {
            Some(f) => as_fields(item@, seq![first@]) == Some(pair_trees(f.entries())),
            None => as_fields(item@, seq![first@]) is None,
        },
{
    match item {
        Item::Table(_) | Item::Chunked(_) => match table_of(item) {
            Some(m) => Some(Fields::Table(m)),
            None => None,
        },
        Item::Array(a) => {
            proof {
                item_trees_index(a@);
            }
            if a.len() != 1 {
                return None;
            }
            let mut m: Vec<(Item, Item)> = Vec::new();
            push_row(&mut m, first, copy_item(&a[0]));
            proof {
                let s = item_trees(a@);
                let names = seq![first@];
                assert(pair_trees(m@) =~= Seq::new(s.len(), |i: int| row(names[i], s[i])));
            }
            Some(Fields::Made(m))
        },
        _ => None,
    }
}

/// The fields that go with a variant that has two.
pub fn fields2<'a>(item: &'a Item, first: &str, second: &str) -> (r: Option<Fields<'a>>)
    ensures
        match r {
            Some(f) => as_fields(item@, seq![first@, second@]) == Some(pair_trees(f.entries())),
            None => as_fields(item@, seq![first@, second@]) is None,
        },
{
    match item {
        Item::Table(_) | Item::Chunked(_) => match table_of(item) {
            Some(m) => Some(Fields::Table(m)),
            None => None,
        },
        Item::Array(a) => {
            proof {
                item_trees_index(a@);
            }
            if a.len() != 2 {
                return None;
            }
            let mut m: Vec<(Item, Item)> = Vec::new();
            push_row(&mut m, first, copy_item(&a[0]));
            push_row(&mut m, second, copy_item(&a[1]));
            proof {
                let s = item_trees(a@);
                let names = seq![first@, second@];
                assert(pair_trees(m@) =~= Seq::new(s.len(), |i: int| row(names[i], s[i])));
            }
            Some(Fields::Made(m))
        },
        _ => None,
    }
}

/// The fields that go with a variant that has three.
pub fn fields3<'a>(item: &'a Item, first: &str, second: &str, third: &str) -> (r: Option<
    Fields<'a>,
>)
    ensures
        match r {
            Some(f) => as_fields(item@, seq![first@, second@, third@]) == Some(
                pair_trees(f.entries()),
            ),
            None => as_fields(item@, seq![first@, second@, third@]) is None,
        },
{
    match item {
        Item::Table(_) | Item::Chunked(_) => match table_of(item) {
            Some(m) => Some(Fields::Table(m)),
            None => None,
        },
        Item::Array(a) => {
            proof {
                item_trees_index(a@);
            }
            if a.len() != 3 {
                return None;
            }
            let mut m: Vec<(Item, Item)> = Vec::new();
            push_row(&mut m, first, copy_item(&a[0]));
            push_row(&mut m, second, copy_item(&a[1]));
            push_row(&mut m, third, copy_item(&a[2]));
            proof {
                let s = item_trees(a@);
                let names = seq![first@, second@, third@];
                assert(pair_trees(m@) =~= Seq::new(s.len(), |i: int| row(names[i], s[i])));
            }
            Some(Fields::Made(m))
        },
        _ => None,
    }
}

/// A text item.
pub fn text_item(t: &str) -> (r: Item)
    ensures
        r@ == Cbor::Text(t@),
{
    Item::Text(t.to_owned())
}

/// A byte string item.
pub fn bytes_item(b: &[u8]) -> (r: Item)
    ensures
        r@ == Cbor::Bytes(b@),
{
    Item::Bytes(copy_bytes(b))
}

/// A table of one entry.
pub fn table1(k: &str, v: Item) -> (r: Item)
    ensures
        r@ == Cbor::Table(seq![row(k@, v@)]),
{
    let mut m: Vec<(Item, Item)> = Vec::new();
    m.push((text_item(k), v));
    proof {
        pair_trees_index(m@);
        assert(pair_trees(m@)[0] == (m@[0].0@, m@[0].1@));
        assert(pair_trees(m@) =~= seq![row(k@, v@)]);
    }
    Item::Table(m)
}

/// Append one entry to a table under construction.
pub fn push_row(m: &mut Vec<(Item, Item)>, k: &str, v: Item)
    ensures
        pair_trees(final(m)@) == pair_trees(old(m)@).push(row(k@, v@)),
{
    let ghost prior = m@;
    m.push((text_item(k), v));
    assert(m@.drop_last() =~= prior);
}

} // verus!
