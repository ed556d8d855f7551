//! What holds of the hardware that a well-formed device tree describes.
use super::super::firmware;
use super::super::memory_map::BootMemory;
use super::{
    committed, discovered, discovered_from, list_contains, new_node, nothing_discovered,
    property_of, register_bases, release_cells, value_is, with_compatible, with_property, with_registers, with_words,
    CpuBootInfo, DiscoveryView, NodeView, Property, PsciConduit,
};
use crate::bytes;
use crate::text;
use vstd::prelude::*;
use vstd::string::StringSliceAdditionalSpecFns;

verus! {

/// A part of the structure block.
pub enum Item {
    /// A node of this name begins.
    Begin(Seq<u8>),
    /// The node that began last and has not ended has this property: where its name stands in
    /// the strings block, and its value.
    Value(int, Seq<u8>),
    /// Nothing.
    Skip,
    /// The node that began last and has not ended ends.
    End,
    /// The block ends.
    Last,
}

/// The first multiple of four that is no smaller.
pub open spec fn padded(count: int) -> int {
    (count + 3) / 4 * 4
}

/// How many bytes an item takes.
pub open spec fn item_size(item: Item) -> int {
    match item {
        Item::Begin(name) => 4 + padded((name.len() + 1) as int),
        Item::Value(_, value) => 12 + padded(value.len() as int),
        _ => 4,
    }
}

/// Whether bytes stand somewhere.
pub open spec fn bytes_at(data: Seq<u8>, at: int, expected: Seq<u8>) -> bool {
    &&& 0 <= at
    &&& at + expected.len() <= data.len()
    &&& forall|i: int| 0 <= i < expected.len() ==> data[at + i] == #[trigger] expected[i]
}

/// Whether a number of four bytes stands somewhere, the highest byte first.
pub open spec fn number_at(data: Seq<u8>, at: int, value: int) -> bool {
    &&& 0 <= at
    &&& at + 4 <= data.len()
    &&& value == data[at] * 0x100_0000 + data[at + 1] * 0x1_0000 + data[at + 2] * 0x100 + data[at
        + 3]
}

/// Whether an item stands somewhere in the structure block.
pub open spec fn item_at(structure: Seq<u8>, strings: Seq<u8>, at: int, item: Item) -> bool {
    match item {
        Item::Begin(name) => {
            &&& number_at(structure, at, 1)
            &&& bytes_at(structure, at + 4, name.push(0))
            &&& !name.contains(0)
        },
        Item::End => number_at(structure, at, 2),
        Item::Value(name, value) => {
            &&& number_at(structure, at, 3)
            &&& number_at(structure, at + 4, value.len() as int)
            &&& number_at(structure, at + 8, name)
            &&& 0 <= name < strings.len()
            &&& bytes_at(structure, at + 12, value)
        },
        Item::Skip => number_at(structure, at, 4),
        Item::Last => number_at(structure, at, 9),
    }
}

/// Where an item stands if the first stands at `start`.
pub open spec fn place(items: Seq<Item>, start: int, k: int) -> int
    decreases k,
{
    if k <= 0 {
        start
    } else {
        place(items, start, k - 1) + item_size(items[k - 1])
    }
}

/// Whether items stand one behind the other from `start` on.
pub open spec fn holds_items(
    structure: Seq<u8>,
    strings: Seq<u8>,
    start: int,
    items: Seq<Item>,
) -> bool {
    &&& start >= 0
    &&& start % 4 == 0
    &&& forall|k: int|
        0 <= k < items.len() ==> item_at(
            structure,
            strings,
            place(items, start, k),
            #[trigger] items[k],
        )
}

/// The nodes that have begun before an item and have not ended, each by the number of the item
/// with which it begins.
pub open spec fn open_at(items: Seq<Item>, k: int) -> Seq<int>
    decreases k,
{
    if k <= 0 {
        Seq::empty()
    } else {
        match items[k - 1] {
            Item::Begin(_) => open_at(items, k - 1).push(k - 1),
            Item::End if open_at(items, k - 1).len() > 0 => open_at(items, k - 1).drop_last(),
            _ => open_at(items, k - 1),
        }
    }
}

/// Items that are a tree: properties and ends are in a node, nodes are nested at most sixteen
/// deep, each has ended at the end of the block, and the block ends once.
pub open spec fn is_tree(items: Seq<Item>) -> bool {
    &&& items.len() > 0
    &&& items[items.len() - 1] is Last
    &&& open_at(items, items.len() - 1).len() == 0
    &&& forall|k: int|
        0 <= k < items.len() - 1 ==> match #[trigger] items[k] {
            Item::Begin(_) => open_at(items, k).len() < 16,
            Item::Value(_, _) => open_at(items, k).len() > 0,
            Item::End => open_at(items, k).len() > 0,
            Item::Skip => true,
            Item::Last => false,
        }
}

/// Whether an item is a property of the node that begins with item `b`.
pub open spec fn owns(items: Seq<Item>, b: int, i: int) -> bool {
    &&& 0 <= i < items.len()
    &&& items[i] is Value
    &&& open_at(items, i).len() > 0
    &&& open_at(items, i).last() == b
}

/// The value of an item that is a property.
pub open spec fn value_of(item: Item) -> Seq<u8> {
    match item {
        Item::Value(_, value) => value,
        _ => Seq::empty(),
    }
}

/// Whether a property has a name.
pub open spec fn is_named(strings: Seq<u8>, item: Item, name: &str) -> bool {
    match item {
        Item::Value(at, _) => bytes_at(strings, at, name.spec_bytes().push(0)),
        _ => false,
    }
}

/// Whether a value begins with a text and a zero.
pub open spec fn reads(value: Seq<u8>, word: &str) -> bool {
    bytes_at(value, 0, word.spec_bytes().push(0))
}

/// Whether a text stands in a list of texts that a zero follows each.
pub open spec fn lists(value: Seq<u8>, word: &str) -> bool {
    exists|at: int| #[trigger] lists_at(value, word.spec_bytes(), at)
}

/// Whether one of the texts of a list stands at `at`.
pub open spec fn lists_at(value: Seq<u8>, word: Seq<u8>, at: int) -> bool {
    (at == 0 || (at > 0 && value[at - 1] == 0)) && bytes_at(value, at, word.push(0))
}

/// What is known before item `k` of the node that begins with item `b`.
#[verifier::opaque]
spec fn node_at(items: Seq<Item>, strings: Seq<u8>, b: int, k: int) -> NodeView
    decreases k,
{
    if b < 0 || k <= b {
        new_node(None, Seq::empty())
    } else if k == b + 1 {
        let above = open_at(items, b);
        new_node(
            if above.len() == 0 {
                None
            } else {
                Some(node_at(items, strings, above.last(), b))
            },
            items[b]->Begin_0,
        )
    } else {
        let before = node_at(items, strings, b, k - 1);
        if owns(items, b, k - 1) {
            with_property(
                before,
                strings,
                items[k - 1]->Value_0,
                items[k - 1]->Value_1,
            )
        } else {
            before
        }
    }
}

/// The nodes that are open before item `k`.
spec fn nodes_at(items: Seq<Item>, strings: Seq<u8>, k: int) -> Seq<NodeView> {
    Seq::new(open_at(items, k).len(), |j: int| node_at(items, strings, open_at(items, k)[j], k))
}

/// What is known of the hardware before item `k`.
#[verifier::opaque]
spec fn told_at(items: Seq<Item>, strings: Seq<u8>, k: int) -> DiscoveryView
    decreases k,
{
    if k <= 0 {
        DiscoveryView { valid: true, ..nothing_discovered() }
    } else if items[k - 1] is End {
        committed(
            node_at(items, strings, open_at(items, k - 1).last(), k - 1),
            told_at(items, strings, k - 1),
        )
    } else {
        told_at(items, strings, k - 1)
    }
}

proof fn lemma_open(items: Seq<Item>, k: int)
    requires
        0 <= k,
    ensures
        forall|j: int| 0 <= j < open_at(items, k).len() ==> 0 <= #[trigger] open_at(items, k)[j] < k
            && items[open_at(items, k)[j]] is Begin,
        forall|i: int, j: int|
            0 <= i < j < open_at(items, k).len() ==> (#[trigger] open_at(items, k)[i]) < (
            #[trigger] open_at(items, k)[j]),
    decreases k,
{
    if k > 0 {
        lemma_open(items, k - 1);
    }
}

/// A node that has ended is not open again.
proof fn lemma_closed(items: Seq<Item>, b: int, k: int, later: int)
    requires
        b < k <= later,
        0 <= k,
        !open_at(items, k).contains(b),
    ensures
        !open_at(items, later).contains(b),
    decreases later - k,
{
    if k < later {
        lemma_closed(items, b, k, later - 1);
        lemma_open(items, later);
        let before = open_at(items, later - 1);
        let after = open_at(items, later);
        if after.contains(b) {
            let j = choose|j: int| 0 <= j < after.len() && after[j] == b;
            if items[later - 1] is Begin {
                if j < before.len() {
                    assert(before[j] == b);
                }
            } else {
                assert(before[j] == b);
            }
        }
    }
}

proof fn lemma_place(items: Seq<Item>, start: int, k: int)
    requires
        0 <= k,
        0 <= start,
        start % 4 == 0,
    ensures
        place(items, start, k) >= start,
        place(items, start, k) % 4 == 0,
    decreases k,
{
    if k > 0 {
        lemma_place(items, start, k - 1);
        assert(item_size(items[k - 1]) % 4 == 0 && item_size(items[k - 1]) >= 0);
    }
}

proof fn lemma_number(data: Seq<u8>, at: int, value: int)
    requires
        number_at(data, at, value),
    ensures
        bytes::be32(data, at) == value,
{
}

proof fn lemma_begin(structure: Seq<u8>, at: int, name: Seq<u8>)
    requires
        bytes_at(structure, at, name.push(0)),
        !name.contains(0),
    ensures
        firmware::terminated(structure.skip(at)) == Some(name),
{
    let rest = structure.skip(at);
    text::lemma_position(rest, 0);
    let length = text::position(rest, 0);
    assert(name.push(0)[name.len() as int] == 0);
    assert(rest[name.len() as int] == 0);
    assert forall|i: int| 0 <= i < name.len() implies rest[i] != 0 by {
        assert(rest[i] == name.push(0)[i]);
        assert(name[i] != 0);
    }
    assert(length == name.len());
    assert(rest.take(length as int) =~= name) by {
        assert forall|i: int| 0 <= i < name.len() implies rest[i] == name[i] by {
            assert(rest[i] == name.push(0)[i]);
        }
    }
}

/// What an item does to the nodes that are open.
#[verifier::spinoff_prover]
proof fn lemma_nodes(items: Seq<Item>, strings: Seq<u8>, k: int)
    requires
        is_tree(items),
        0 <= k < items.len() - 1,
    ensures
        nodes_at(items, strings, k + 1) == nodes_after(
            nodes_at(items, strings, k),
            strings,
            items[k],
        ),
{
    reveal(node_at);
    let nodes = nodes_at(items, strings, k);
    let next = nodes_at(items, strings, k + 1);
    let open = open_at(items, k);
    let after = open_at(items, k + 1);
    lemma_open(items, k);
    assert forall|j: int| 0 <= j < open.len() && !owns(items, open[j], k) implies node_at(
        items,
        strings,
        #[trigger] open[j],
        k + 1,
    ) == node_at(items, strings, open[j], k) by {
        assert(0 <= open[j] < k);
    }
    match items[k] {
        Item::Begin(name) => {
            let above = if nodes.len() == 0 {
                None
            } else {
                Some(nodes.last())
            };
            assert(after == open.push(k));
            assert(node_at(items, strings, k, k + 1) == new_node(above, name));
            assert forall|j: int| 0 <= j < open.len() implies next[j] == nodes[j] by {
                assert(!owns(items, open[j], k));
            }
            assert(next =~= nodes.push(new_node(above, name)));
        },
        Item::End => {
            assert(after == open.drop_last());
            assert forall|j: int| 0 <= j < after.len() implies next[j] == nodes[j] by {
                assert(!owns(items, open[j], k));
            }
            assert(next =~= nodes.drop_last());
        },
        Item::Value(name, value) => {
            let last = with_property(nodes.last(), strings, name, value);
            assert(after == open);
            assert(owns(items, open.last(), k));
            assert forall|j: int| 0 <= j < open.len() - 1 implies next[j] == nodes[j] by {
                assert(open[j] < open[open.len() - 1]);
                assert(!owns(items, open[j], k));
            }
            assert(open.last() < k);
            assert(next[open.len() - 1] == last);
            assert(next =~= nodes.update(nodes.len() - 1, last));
        },
        _ => {
            assert(after == open);
            assert forall|j: int| 0 <= j < open.len() implies next[j] == nodes[j] by {
                assert(!owns(items, open[j], k));
            }
            assert(next =~= nodes);
        },
    }
}

/// What is known of the nodes after an item.
spec fn nodes_after(nodes: Seq<NodeView>, strings: Seq<u8>, item: Item) -> Seq<NodeView> {
    match item {
        Item::Begin(name) => nodes.push(
            new_node(
                if nodes.len() == 0 {
                    None
                } else {
                    Some(nodes.last())
                },
                name,
            ),
        ),
        Item::End => nodes.drop_last(),
        Item::Value(name, value) => nodes.update(
            nodes.len() - 1,
            with_property(nodes.last(), strings, name, value),
        ),
        _ => nodes,
    }
}

/// What an item does to what is known of the hardware.
proof fn lemma_told(items: Seq<Item>, strings: Seq<u8>, k: int)
    requires
        0 <= k,
    ensures
        told_at(items, strings, k + 1) == (if items[k] is End {
            committed(
                node_at(items, strings, open_at(items, k).last(), k),
                told_at(items, strings, k),
            )
        } else {
            told_at(items, strings, k)
        }),
{
    reveal(told_at);
}

/// What the structure block tells.
#[verifier::opaque]
spec fn walked(
    cursor: int,
    nodes: Seq<NodeView>,
    told: DiscoveryView,
    structure: Seq<u8>,
    strings: Seq<u8>,
) -> DiscoveryView {
    discovered_from(cursor, nodes, told, structure, strings)
}

#[verifier::spinoff_prover]
proof fn lemma_begin_step(
    structure: Seq<u8>,
    strings: Seq<u8>,
    cursor: int,
    nodes: Seq<NodeView>,
    told: DiscoveryView,
    name: Seq<u8>,
    added: NodeView,
)
    requires
        item_at(structure, strings, cursor, Item::Begin(name)),
        cursor % 4 == 0,
        nodes.len() < 16,
        added == new_node(
            if nodes.len() == 0 {
                None
            } else {
                Some(nodes.last())
            },
            name,
        ),
    ensures
        walked(cursor, nodes, told, structure, strings) == walked(
            cursor + item_size(Item::Begin(name)),
            nodes.push(added),
            told,
            structure,
            strings,
        ),
{
    lemma_number(structure, cursor, 1);
    lemma_begin(structure, cursor + 4, name);
    assert(firmware::aligned4(cursor + 4 + name.len() + 1) == cursor + item_size(
        Item::Begin(name),
    ));
    reveal(walked);
}

#[verifier::spinoff_prover]
proof fn lemma_end_step(
    structure: Seq<u8>,
    strings: Seq<u8>,
    cursor: int,
    nodes: Seq<NodeView>,
    told: DiscoveryView,
    after: DiscoveryView,
)
    requires
        item_at(structure, strings, cursor, Item::End),
        nodes.len() > 0,
        after == committed(nodes.last(), told),
    ensures
        walked(cursor, nodes, told, structure, strings) == walked(
            cursor + 4,
            nodes.drop_last(),
            after,
            structure,
            strings,
        ),
{
    lemma_number(structure, cursor, 2);
    reveal(walked);
}

#[verifier::spinoff_prover]
proof fn lemma_value_step(
    structure: Seq<u8>,
    strings: Seq<u8>,
    cursor: int,
    nodes: Seq<NodeView>,
    told: DiscoveryView,
    name: int,
    value: Seq<u8>,
    changed: NodeView,
)
    requires
        item_at(structure, strings, cursor, Item::Value(name, value)),
        cursor % 4 == 0,
        nodes.len() > 0,
        changed == with_property(nodes.last(), strings, name, value),
    ensures
        walked(cursor, nodes, told, structure, strings) == walked(
            cursor + item_size(Item::Value(name, value)),
            nodes.update(nodes.len() - 1, changed),
            told,
            structure,
            strings,
        ),
{
    lemma_number(structure, cursor, 3);
    lemma_number(structure, cursor + 4, value.len() as int);
    lemma_number(structure, cursor + 8, name);
    let at = cursor + 4;
    assert(structure.subrange(at + 8, at + 8 + value.len()) =~= value);
    assert(firmware::aligned4(at + 8 + value.len()) == cursor + item_size(
        Item::Value(name, value),
    ));
    reveal(walked);
}

#[verifier::spinoff_prover]
proof fn lemma_skip_step(
    structure: Seq<u8>,
    strings: Seq<u8>,
    cursor: int,
    nodes: Seq<NodeView>,
    told: DiscoveryView,
)
    requires
        item_at(structure, strings, cursor, Item::Skip),
    ensures
        walked(cursor, nodes, told, structure, strings) == walked(
            cursor + 4,
            nodes,
            told,
            structure,
            strings,
        ),
{
    lemma_number(structure, cursor, 4);
    reveal(walked);
}

#[verifier::spinoff_prover]
proof fn lemma_last_step(
    structure: Seq<u8>,
    strings: Seq<u8>,
    cursor: int,
    nodes: Seq<NodeView>,
    told: DiscoveryView,
)
    requires
        item_at(structure, strings, cursor, Item::Last),
    ensures
        walked(cursor, nodes, told, structure, strings) == told,
{
    lemma_number(structure, cursor, 9);
    reveal(walked);
}

/// The walk over the items of a tree ends with what the last of them leaves.
#[verifier::spinoff_prover]
proof fn lemma_walk(
    structure: Seq<u8>,
    strings: Seq<u8>,
    start: int,
    items: Seq<Item>,
    k: int,
)
    requires
        holds_items(structure, strings, start, items),
        is_tree(items),
        0 <= k < items.len(),
    ensures
        walked(
            place(items, start, k),
            nodes_at(items, strings, k),
            told_at(items, strings, k),
            structure,
            strings,
        ) == told_at(items, strings, items.len() - 1),
    decreases items.len() - k,
{
    let cursor = place(items, start, k);
    let nodes = nodes_at(items, strings, k);
    let told = told_at(items, strings, k);
    lemma_place(items, start, k);
    let item = items[k];
    assert(item_at(structure, strings, cursor, item));
    if k < items.len() - 1 {
        lemma_walk(structure, strings, start, items, k + 1);
        lemma_nodes(items, strings, k);
        lemma_told(items, strings, k);
        assert(place(items, start, k + 1) == cursor + item_size(item));
        match item {
            Item::Begin(name) => {
                lemma_begin_step(
                    structure,
                    strings,
                    cursor,
                    nodes,
                    told,
                    name,
                    nodes_after(nodes, strings, item).last(),
                );
            },
            Item::End => {
                assert(nodes.last() == node_at(items, strings, open_at(items, k).last(), k));
                lemma_end_step(
                    structure,
                    strings,
                    cursor,
                    nodes,
                    told,
                    told_at(items, strings, k + 1),
                );
            },
            Item::Value(name, value) => {
                lemma_value_step(
                    structure,
                    strings,
                    cursor,
                    nodes,
                    told,
                    name,
                    value,
                    nodes_after(nodes, strings, item).last(),
                );
            },
            Item::Skip => {
                lemma_skip_step(structure, strings, cursor, nodes, told);
            },
            Item::Last => {},
        }
    } else {
        lemma_last_step(structure, strings, cursor, nodes, told);
    }
}

proof fn lemma_string_is(strings: Seq<u8>, at: int, word: Seq<u8>)
    requires
        0 <= at,
    ensures
        firmware::string_is(strings, at, word) == bytes_at(strings, at, word.push(0)),
{
    reveal(firmware::string_is);
    let whole = word.push(0);
    if bytes_at(strings, at, whole) {
        assert(whole[word.len() as int] == 0);
        assert forall|i: int| 0 <= i < word.len() implies strings[at + i] == word[i] by {
            assert(whole[i] == word[i]);
        }
        assert(strings.subrange(at, at + word.len()) =~= word);
    }
    if firmware::string_is(strings, at, word) {
        assert forall|i: int| 0 <= i < whole.len() implies strings[at + i] == #[trigger] whole[i] by {
            if i < word.len() {
                assert(strings.subrange(at, at + word.len())[i] == word[i]);
            }
        }
    }
}

proof fn lemma_value_is(value: Seq<u8>, word: Seq<u8>)
    ensures
        value_is(value, word) == bytes_at(value, 0, word.push(0)),
{
    reveal(value_is);
    let whole = word.push(0);
    if bytes_at(value, 0, whole) {
        assert(whole[word.len() as int] == 0);
        assert(value[0 + word.len() as int] == 0);
        assert forall|i: int| 0 <= i < word.len() implies value[i] == word[i] by {
            assert(whole[i] == word[i]);
            assert(value[0 + i] == whole[i]);
        }
        assert(value.take(word.len() as int) =~= word);
    }
    if value_is(value, word) {
        assert forall|i: int| 0 <= i < whole.len() implies value[0 + i] == #[trigger] whole[i] by {
            if i < word.len() {
                assert(value.take(word.len() as int)[i] == word[i]);
            }
        }
    }
}

/// How the names of the properties begin.
#[verifier::spinoff_prover]
proof fn lemma_names_begin()
    ensures
        "#address-cells".spec_bytes().len() >= 2,
        "#address-cells".spec_bytes()[0] == 35,
        "#address-cells".spec_bytes()[1] == 97,
        "#size-cells".spec_bytes().len() >= 2,
        "#size-cells".spec_bytes()[0] == 35,
        "#size-cells".spec_bytes()[1] == 115,
        "compatible".spec_bytes().len() >= 2,
        "compatible".spec_bytes()[0] == 99,
        "compatible".spec_bytes()[1] == 111,
        "reg".spec_bytes().len() >= 2,
        "reg".spec_bytes()[0] == 114,
        "reg".spec_bytes()[1] == 101,
        "interrupts".spec_bytes().len() >= 2,
        "interrupts".spec_bytes()[0] == 105,
        "interrupts".spec_bytes()[1] == 110,
        "method".spec_bytes().len() >= 2,
        "method".spec_bytes()[0] == 109,
        "method".spec_bytes()[1] == 101,
        "enable-method".spec_bytes().len() >= 2,
        "enable-method".spec_bytes()[0] == 101,
        "enable-method".spec_bytes()[1] == 110,
        "cpu-release-addr".spec_bytes().len() >= 2,
        "cpu-release-addr".spec_bytes()[0] == 99,
        "cpu-release-addr".spec_bytes()[1] == 112,
        "status".spec_bytes().len() >= 2,
        "status".spec_bytes()[0] == 115,
        "status".spec_bytes()[1] == 116,
{
    reveal_strlit("#address-cells");
    vstd::string::is_ascii_spec_bytes("#address-cells");
    reveal_strlit("#size-cells");
    vstd::string::is_ascii_spec_bytes("#size-cells");
    reveal_strlit("compatible");
    vstd::string::is_ascii_spec_bytes("compatible");
    reveal_strlit("reg");
    vstd::string::is_ascii_spec_bytes("reg");
    reveal_strlit("interrupts");
    vstd::string::is_ascii_spec_bytes("interrupts");
    reveal_strlit("method");
    vstd::string::is_ascii_spec_bytes("method");
    reveal_strlit("enable-method");
    vstd::string::is_ascii_spec_bytes("enable-method");
    reveal_strlit("cpu-release-addr");
    vstd::string::is_ascii_spec_bytes("cpu-release-addr");
    reveal_strlit("status");
    vstd::string::is_ascii_spec_bytes("status");
}

/// A text that stands somewhere stands there with its first two bytes.
proof fn lemma_begins(strings: Seq<u8>, at: int, word: Seq<u8>)
    requires
        word.len() >= 2,
    ensures
        bytes_at(strings, at, word.push(0)) ==> strings[at] == word[0] && strings[at + 1]
            == word[1],
{
    assert(word.push(0)[0] == word[0] && word.push(0)[1] == word[1]);
}

/// A property is what its name says.
#[verifier::spinoff_prover]
proof fn lemma_property_named(strings: Seq<u8>, at: int, value: Seq<u8>)
    requires
        0 <= at,
    ensures
        ({
            let item = Item::Value(at, value);
            let property = property_of(strings, at);
            &&& property == Property::AddressCells <==> is_named(strings, item, "#address-cells")
            &&& property == Property::SizeCells <==> is_named(strings, item, "#size-cells")
            &&& property == Property::Compatible <==> is_named(strings, item, "compatible")
            &&& property == Property::Registers <==> is_named(strings, item, "reg")
            &&& property == Property::Interrupts <==> is_named(strings, item, "interrupts")
            &&& property == Property::Method <==> is_named(strings, item, "method")
            &&& property == Property::EnableMethod <==> is_named(strings, item, "enable-method")
            &&& property == Property::ReleaseAddress <==> is_named(strings, item, "cpu-release-addr")
            &&& property == Property::Status <==> is_named(strings, item, "status")
        }),
{
    reveal(property_of);
    reveal(text::literal);
    lemma_names_begin();
    lemma_string_is(strings, at, "#address-cells".spec_bytes());
    lemma_string_is(strings, at, "#size-cells".spec_bytes());
    lemma_string_is(strings, at, "compatible".spec_bytes());
    lemma_string_is(strings, at, "reg".spec_bytes());
    lemma_string_is(strings, at, "interrupts".spec_bytes());
    lemma_string_is(strings, at, "method".spec_bytes());
    lemma_string_is(strings, at, "enable-method".spec_bytes());
    lemma_string_is(strings, at, "cpu-release-addr".spec_bytes());
    lemma_string_is(strings, at, "status".spec_bytes());
    lemma_begins(strings, at, "#address-cells".spec_bytes());
    lemma_begins(strings, at, "#size-cells".spec_bytes());
    lemma_begins(strings, at, "compatible".spec_bytes());
    lemma_begins(strings, at, "reg".spec_bytes());
    lemma_begins(strings, at, "interrupts".spec_bytes());
    lemma_begins(strings, at, "method".spec_bytes());
    lemma_begins(strings, at, "enable-method".spec_bytes());
    lemma_begins(strings, at, "cpu-release-addr".spec_bytes());
    lemma_begins(strings, at, "status".spec_bytes());
}

/// A list of texts holds those that stand in it.
proof fn lemma_list(list: Seq<u8>, word: Seq<u8>)
    requires
        !word.contains(0),
    ensures
        list_contains(list, word) == (exists|at: int| #[trigger] lists_at(list, word, at)),
    decreases list.len(),
{
    reveal(list_contains);
    let whole = word.push(0);
    text::lemma_position(list, 0);
    let length = text::position(list, 0) as int;
    assert(whole[word.len() as int] == 0);
    if length < list.len() {
        let name = list.take(length);
        let rest = list.skip(length + 1);
        lemma_list(rest, word);
        if list_contains(list, word) {
            if name == word {
                assert forall|i: int| 0 <= i < whole.len() implies list[0 + i]
                    == #[trigger] whole[i] by {
                    if i < word.len() {
                        assert(name[i] == word[i]);
                    }
                }
                assert(lists_at(list, word, 0));
            } else {
                let at = choose|at: int| #[trigger] lists_at(rest, word, at);
                assert forall|i: int| 0 <= i < whole.len() implies list[at + length + 1 + i]
                    == #[trigger] whole[i] by {
                    assert(rest[at + i] == whole[i]);
                }
                if at > 0 {
                    assert(rest[at - 1] == list[at + length]);
                }
                assert(lists_at(list, word, at + length + 1));
            }
        }
        if exists|at: int| #[trigger] lists_at(list, word, at) {
            let at = choose|at: int| #[trigger] lists_at(list, word, at);
            assert(list[at + word.len()] == whole[word.len() as int]);
            if at == 0 {
                assert forall|i: int| 0 <= i < word.len() implies list[i] == word[i]
                    && list[i] != 0 by {
                    assert(list[0 + i] == whole[i]);
                    assert(word.contains(word[i]));
                }
                assert(length == word.len());
                assert(name =~= word);
            } else {
                assert(at - 1 >= length);
                let there = at - length - 1;
                assert forall|i: int| 0 <= i < whole.len() implies rest[there + i]
                    == #[trigger] whole[i] by {
                    assert(list[at + i] == whole[i]);
                }
                if there > 0 {
                    assert(rest[there - 1] == list[at - 1]);
                }
                assert(lists_at(rest, word, there));
            }
        }
    } else {
        if exists|at: int| #[trigger] lists_at(list, word, at) {
            let at = choose|at: int| #[trigger] lists_at(list, word, at);
            assert(list[at + word.len()] == whole[word.len() as int]);
            assert(list.contains(0));
        }
    }
}

/// The names of the drivers hold no zero.
#[verifier::spinoff_prover]
proof fn lemma_drivers()
    ensures
        !"arm,gic-400".spec_bytes().contains(0),
        !"arm,cortex-a15-gic".spec_bytes().contains(0),
        !"brcm,bcm2835-system-timer".spec_bytes().contains(0),
        !"brcm,bcm2712-pcie".spec_bytes().contains(0),
        !"arm,armv8-timer".spec_bytes().contains(0),
        !"arm,armv7-timer".spec_bytes().contains(0),
        !"arm,psci-0.2".spec_bytes().contains(0),
        !"arm,psci-1.0".spec_bytes().contains(0),
{
    reveal_strlit("arm,gic-400");
    vstd::string::is_ascii_spec_bytes("arm,gic-400");
    reveal_strlit("arm,cortex-a15-gic");
    vstd::string::is_ascii_spec_bytes("arm,cortex-a15-gic");
    reveal_strlit("brcm,bcm2835-system-timer");
    vstd::string::is_ascii_spec_bytes("brcm,bcm2835-system-timer");
    reveal_strlit("brcm,bcm2712-pcie");
    vstd::string::is_ascii_spec_bytes("brcm,bcm2712-pcie");
    reveal_strlit("arm,armv8-timer");
    vstd::string::is_ascii_spec_bytes("arm,armv8-timer");
    reveal_strlit("arm,armv7-timer");
    vstd::string::is_ascii_spec_bytes("arm,armv7-timer");
    reveal_strlit("arm,psci-0.2");
    vstd::string::is_ascii_spec_bytes("arm,psci-0.2");
    reveal_strlit("arm,psci-1.0");
    vstd::string::is_ascii_spec_bytes("arm,psci-1.0");
}

/// A property changes what its name says it is about, and nothing else.
#[verifier::spinoff_prover]
proof fn lemma_property(node: NodeView, strings: Seq<u8>, at: int, value: Seq<u8>)
    requires
        0 <= at,
    ensures
        ({
            let item = Item::Value(at, value);
            let after = with_property(node, strings, at, value);
            let drivers = is_named(strings, item, "compatible");
            &&& after.gic == (node.gic || (drivers && (lists(value, "arm,gic-400") || lists(value, "arm,cortex-a15-gic"))))
            &&& after.system_timer == (node.system_timer || (drivers && (lists(value, "brcm,bcm2835-system-timer"))))
            &&& after.pcie == (node.pcie || (drivers && (lists(value, "brcm,bcm2712-pcie"))))
            &&& after.arm_timer == (node.arm_timer || (drivers && (lists(value, "arm,armv8-timer") || lists(value, "arm,armv7-timer"))))
            &&& after.psci == (node.psci || (drivers && (lists(value, "arm,psci-0.2") || lists(value, "arm,psci-1.0"))))
            &&& after.psci_conduit == (if !is_named(strings, item, "method") {
                node.psci_conduit
            } else if reads(value, "hvc") {
                PsciConduit::Hvc
            } else if reads(value, "smc") {
                PsciConduit::Smc
            } else {
                PsciConduit::Unknown
            })
            &&& after.spin_table == (if is_named(strings, item, "enable-method") {
                reads(value, "spin-table")
            } else {
                node.spin_table
            })
            &&& after.enabled == (if is_named(strings, item, "status") {
                !reads(value, "disabled")
            } else {
                node.enabled
            })
            &&& after.cpu == node.cpu
            &&& after.cpus_container == node.cpus_container
            &&& after.physical_timer_interrupt == 30 || after.physical_timer_interrupt
                == node.physical_timer_interrupt
            &&& !is_named(strings, item, "reg") ==> after.registers == node.registers
                && after.cpu_mpidr == node.cpu_mpidr
            &&& !is_named(strings, item, "cpu-release-addr") ==> after.release_address
                == node.release_address
            &&& !is_named(strings, item, "#address-cells") ==> after.child_address_cells
                == node.child_address_cells
            &&& !is_named(strings, item, "#size-cells") ==> after.child_size_cells
                == node.child_size_cells
            &&& after.parent_address_cells == node.parent_address_cells
            &&& after.parent_size_cells == node.parent_size_cells
            &&& is_named(strings, item, "#address-cells") && value.len() == 4
                ==> after.child_address_cells == bytes::be32(value, 0)
            &&& is_named(strings, item, "#size-cells") && value.len() == 4
                ==> after.child_size_cells == bytes::be32(value, 0)
            &&& is_named(strings, item, "reg") && !node.cpu && 1 <= node.parent_address_cells <= 2
                && 1 <= node.parent_size_cells <= 2 ==> after.registers == register_bases(
                node.registers,
                value,
                0,
                node.parent_address_cells as int,
                node.parent_size_cells as int,
            )
            &&& is_named(strings, item, "reg") && node.cpu && 1 <= node.parent_address_cells <= 2
                && value.len() >= 4 * node.parent_address_cells ==> after.cpu_mpidr
                == firmware::cells(value, 0, node.parent_address_cells as int)
            &&& is_named(strings, item, "cpu-release-addr") && value.len() == 8
                ==> after.release_address == firmware::cells(value, 0, 2)
        }),
{
    lemma_property_named(strings, at, value);
    lemma_drivers();
    reveal(text::literal);
    reveal(with_compatible);
    reveal(with_words);
    reveal(with_registers);
    reveal(release_cells);
    lemma_list(value, "arm,gic-400".spec_bytes());
    lemma_list(value, "arm,cortex-a15-gic".spec_bytes());
    lemma_list(value, "brcm,bcm2835-system-timer".spec_bytes());
    lemma_list(value, "brcm,bcm2712-pcie".spec_bytes());
    lemma_list(value, "arm,armv8-timer".spec_bytes());
    lemma_list(value, "arm,armv7-timer".spec_bytes());
    lemma_list(value, "arm,psci-0.2".spec_bytes());
    lemma_list(value, "arm,psci-1.0".spec_bytes());
    lemma_value_is(value, "hvc".spec_bytes());
    lemma_value_is(value, "smc".spec_bytes());
    lemma_value_is(value, "spin-table".spec_bytes());
    lemma_value_is(value, "disabled".spec_bytes());
}

/// The names of properties stand somewhere.
spec fn names_stand(items: Seq<Item>) -> bool {
    forall|i: int|
        0 <= i < items.len() && (#[trigger] items[i]) is Value ==> items[i]->Value_0 >= 0
}

/// Whether an item is a property of this name of the node that begins with item `b`.
pub open spec fn has_property(
    items: Seq<Item>,
    strings: Seq<u8>,
    b: int,
    i: int,
    name: &str,
) -> bool {
    owns(items, b, i) && is_named(strings, items[i], name)
}

/// Whether an item says of the node that begins with item `b` that a driver suits it.
pub open spec fn names_driver(
    items: Seq<Item>,
    strings: Seq<u8>,
    b: int,
    i: int,
    driver: &str,
) -> bool {
    has_property(items, strings, b, i, "compatible") && lists(value_of(items[i]), driver)
}

/// Whether a driver suits the node that begins with item `b`.
pub open spec fn suits(items: Seq<Item>, strings: Seq<u8>, b: int, driver: &str) -> bool {
    exists|i: int| #[trigger] names_driver(items, strings, b, i, driver)
}

/// Whether an item before item `k` says that a driver suits a node.
spec fn suits_by(items: Seq<Item>, strings: Seq<u8>, b: int, k: int, driver: &str) -> bool {
    exists|i: int| i < k && #[trigger] names_driver(items, strings, b, i, driver)
}

proof fn lemma_suits_by(items: Seq<Item>, strings: Seq<u8>, b: int, k: int, driver: &str)
    requires
        0 <= k,
    ensures
        suits_by(items, strings, b, k + 1, driver) == (suits_by(items, strings, b, k, driver)
            || names_driver(items, strings, b, k, driver)),
{
    if suits_by(items, strings, b, k + 1, driver) {
        let i = choose|i: int| i < k + 1 && #[trigger] names_driver(items, strings, b, i, driver);
        if i < k {
            assert(suits_by(items, strings, b, k, driver));
        }
    }
    if suits_by(items, strings, b, k, driver) {
        let i = choose|i: int| i < k && #[trigger] names_driver(items, strings, b, i, driver);
        assert(i < k + 1 && names_driver(items, strings, b, i, driver));
    }
}

/// How the knowledge of a node grows.
proof fn lemma_node(items: Seq<Item>, strings: Seq<u8>, b: int, k: int)
    requires
        0 <= b < k,
    ensures
        node_at(items, strings, b, k + 1) == (if owns(items, b, k) {
            with_property(
                node_at(items, strings, b, k),
                strings,
                items[k]->Value_0,
                items[k]->Value_1,
            )
        } else {
            node_at(items, strings, b, k)
        }),
{
    reveal(node_at);
}

/// What is known of a node when it begins.
proof fn lemma_new_node(items: Seq<Item>, strings: Seq<u8>, b: int)
    requires
        0 <= b,
        items[b] is Begin,
    ensures
        ({
            let above = open_at(items, b);
            let node = node_at(items, strings, b, b + 1);
            let parent = node_at(items, strings, above.last(), b);
            &&& !node.gic
            &&& !node.system_timer
            &&& !node.pcie
            &&& node.psci == (items[b]->Begin_0 == "psci".spec_bytes())
            &&& node.psci_conduit == PsciConduit::Unknown
            &&& node.physical_timer_interrupt == 30
            &&& node.registers.len() == 0
            &&& node.enabled
            &&& !node.spin_table
            &&& node.cpu_mpidr == 0
            &&& node.release_address == 0
            &&& node.cpus_container == (items[b]->Begin_0 == "cpus".spec_bytes())
            &&& above.len() == 0 ==> !node.cpu
            &&& above.len() > 0 ==> node.parent_address_cells == parent.child_address_cells
                && node.parent_size_cells == parent.child_size_cells && node.cpu == (
            parent.cpus_container && bytes_at(items[b]->Begin_0, 0, "cpu@".spec_bytes()))
        }),
{
    reveal(node_at);
    reveal(text::literal);
    let name = items[b]->Begin_0;
    let unit = "cpu@".spec_bytes();
    if bytes_at(name, 0, unit) {
        assert forall|i: int| 0 <= i < unit.len() implies name[i] == unit[i] by {
            assert(name[0 + i] == unit[i]);
        }
        assert(name.take(unit.len() as int) =~= unit);
    }
    if unit.len() <= name.len() && name.take(unit.len() as int) == unit {
        assert forall|i: int| 0 <= i < unit.len() implies name[0 + i] == #[trigger] unit[i] by {
            assert(name.take(unit.len() as int)[i] == unit[i]);
        }
    }
}

/// The drivers that suit a node decide what it is.
#[verifier::spinoff_prover]
proof fn lemma_node_kind(items: Seq<Item>, strings: Seq<u8>, b: int, k: int)
    requires
        0 <= b < k,
        items[b] is Begin,
        names_stand(items),
    ensures
        ({
            let node = node_at(items, strings, b, k);
            &&& node.gic == (suits_by(items, strings, b, k, "arm,gic-400") || suits_by(items, strings, b, k, "arm,cortex-a15-gic"))
            &&& node.system_timer == (suits_by(items, strings, b, k, "brcm,bcm2835-system-timer"))
            &&& node.pcie == (suits_by(items, strings, b, k, "brcm,bcm2712-pcie"))
            &&& node.psci == (items[b]->Begin_0 == "psci".spec_bytes() || suits_by(items, strings, b, k, "arm,psci-0.2") || suits_by(items, strings, b, k, "arm,psci-1.0"))
            &&& node.physical_timer_interrupt == 30
        }),
    decreases k,
{
    if k == b + 1 {
        lemma_new_node(items, strings, b);
        assert forall|i: int, driver: &str| i < k implies !#[trigger] names_driver(
            items,
            strings,
            b,
            i,
            driver,
        ) by {
            if 0 <= i < items.len() && open_at(items, i).len() > 0 && open_at(items, i).last()
                == b {
                lemma_open(items, i);
                assert(open_at(items, i)[open_at(items, i).len() - 1] < i);
            }
        }
    } else {
        lemma_node_kind(items, strings, b, k - 1);
        lemma_node(items, strings, b, k - 1);
        lemma_suits_by(items, strings, b, k - 1, "arm,gic-400");
        lemma_suits_by(items, strings, b, k - 1, "arm,cortex-a15-gic");
        lemma_suits_by(items, strings, b, k - 1, "brcm,bcm2835-system-timer");
        lemma_suits_by(items, strings, b, k - 1, "brcm,bcm2712-pcie");
        lemma_suits_by(items, strings, b, k - 1, "arm,psci-0.2");
        lemma_suits_by(items, strings, b, k - 1, "arm,psci-1.0");
        if owns(items, b, k - 1) {
            lemma_property(
                node_at(items, strings, b, k - 1),
                strings,
                items[k - 1]->Value_0,
                items[k - 1]->Value_1,
            );
        }
    }
}

/// Whether an item ends a node.
pub open spec fn ends(items: Seq<Item>, b: int, k: int) -> bool {
    &&& 0 <= k < items.len()
    &&& items[k] is End
    &&& open_at(items, k).len() > 0
    &&& open_at(items, k).last() == b
}

/// All properties of a node stand before its end.
proof fn lemma_owned_before_end(items: Seq<Item>, b: int, k: int, i: int)
    requires
        ends(items, b, k),
        owns(items, b, i),
    ensures
        b < i < k,
{
    lemma_open(items, i);
    lemma_open(items, k);
    assert(open_at(items, i)[open_at(items, i).len() - 1] == b);
    assert(open_at(items, k)[open_at(items, k).len() - 1] == b);
    if i > k {
        let open = open_at(items, k);
        assert(open_at(items, k + 1) == open.drop_last());
        assert(!open.drop_last().contains(b)) by {
            if open.drop_last().contains(b) {
                let j = choose|j: int| 0 <= j < open.len() - 1 && open.drop_last()[j] == b;
                assert(open[j] < open[open.len() - 1]);
            }
        }
        lemma_closed(items, b, k + 1, i);
        assert(open_at(items, i).contains(b));
    }
}

/// What one node alone decides is what it says.
#[verifier::spinoff_prover]
proof fn lemma_decided<T>(
    items: Seq<Item>,
    strings: Seq<u8>,
    p: int,
    field: spec_fn(DiscoveryView) -> T,
    decides: spec_fn(NodeView) -> Option<T>,
    value: T,
    k: int,
)
    requires
        is_tree(items),
        0 <= p < items.len(),
        items[p] is Begin,
        0 <= k < items.len(),
        forall|node: NodeView, told: DiscoveryView| #[trigger]
            field(committed(node, told)) == (match decides(node) {
                Some(said) => said,
                None => field(told),
            }),
        forall|j: int| #[trigger]
            ends(items, p, j) ==> decides(node_at(items, strings, p, j)) == Some(value),
        forall|b: int, j: int|
            b != p && #[trigger] ends(items, b, j) ==> decides(node_at(items, strings, b, j))
                == None::<T>,
    ensures
        field(told_at(items, strings, k)) == (if p < k && !open_at(items, k).contains(p) {
            value
        } else {
            field(told_at(items, strings, 0))
        }),
    decreases k,
{
    if k > 0 {
        lemma_decided(items, strings, p, field, decides, value, k - 1);
        lemma_told(items, strings, k - 1);
        lemma_open(items, k - 1);
        let before = open_at(items, k - 1);
        let after = open_at(items, k);
        match items[k - 1] {
            Item::End => {
                let b = before.last();
                assert(ends(items, b, k - 1));
                assert(after == before.drop_last());
                assert(before[before.len() - 1] == b);
                if b == p {
                    assert(before.contains(p));
                    if after.contains(p) {
                        let j = choose|j: int| 0 <= j < after.len() && after[j] == p;
                        assert(before[j] < before[before.len() - 1]);
                    }
                } else {
                    if before.contains(p) {
                        let j = choose|j: int| 0 <= j < before.len() && before[j] == p;
                        assert(after[j] == p);
                    }
                    if after.contains(p) {
                        let j = choose|j: int| 0 <= j < after.len() && after[j] == p;
                        assert(before[j] == p);
                    }
                }
            },
            Item::Begin(_) => {
                assert(after == before.push(k - 1));
                assert(after[before.len() as int] == k - 1);
                if before.contains(p) {
                    let j = choose|j: int| 0 <= j < before.len() && before[j] == p;
                    assert(after[j] == p);
                }
                if after.contains(p) {
                    let j = choose|j: int| 0 <= j < after.len() && after[j] == p;
                    if j < before.len() {
                        assert(before[j] == p);
                    }
                }
            },
            _ => {
                assert(after == before);
            },
        }
    }
}

/// Where the parts of a tree lie.
pub struct Layout {
    pub total: int,
    pub structure: int,
    pub structure_size: int,
    pub strings: int,
    pub strings_size: int,
}

/// A device tree lies in memory: its header gives where its parts lie, the structure block holds
/// the items, and the strings block the names.
pub open spec fn holds_tree(
    memory: BootMemory,
    address: u64,
    layout: Layout,
    items: Seq<Item>,
    strings: Seq<u8>,
) -> bool {
    let header = memory.contents(address, 40);
    let blob = memory.contents(address, layout.total);
    &&& address != 0
    &&& address % 8 == 0
    &&& memory.covers(address, 40)
    &&& memory.covers(address, layout.total)
    &&& 40 <= layout.total <= 0x10_0000
    &&& number_at(header, 0, 0xd00d_feed)
    &&& number_at(header, 4, layout.total)
    &&& number_at(header, 8, layout.structure)
    &&& number_at(header, 12, layout.strings)
    &&& number_at(header, 32, layout.strings_size)
    &&& number_at(header, 36, layout.structure_size)
    &&& layout.structure < layout.total
    &&& layout.structure + layout.structure_size <= layout.total
    &&& layout.strings < layout.total
    &&& layout.strings + layout.strings_size <= layout.total
    &&& strings == blob.subrange(layout.strings, layout.strings + layout.strings_size)
    &&& holds_items(
        blob.take(layout.structure + layout.structure_size),
        strings,
        layout.structure,
        items,
    )
    &&& is_tree(items)
}

/// What a tree in memory tells is what its items leave.
proof fn lemma_tree(
    memory: BootMemory,
    address: u64,
    layout: Layout,
    items: Seq<Item>,
    strings: Seq<u8>,
)
    requires
        holds_tree(memory, address, layout, items, strings),
    ensures
        discovered(memory, address) == told_at(items, strings, items.len() - 1),
        told_at(items, strings, 0) == (DiscoveryView { valid: true, ..nothing_discovered() }),
        names_stand(items),
{
    let header = memory.contents(address, 40);
    let blob = memory.contents(address, layout.total);
    lemma_number(header, 0, 0xd00d_feed);
    lemma_number(header, 4, layout.total);
    lemma_number(header, 8, layout.structure);
    lemma_number(header, 12, layout.strings);
    lemma_number(header, 32, layout.strings_size);
    lemma_number(header, 36, layout.structure_size);
    let structure = blob.take(layout.structure + layout.structure_size);
    lemma_walk(structure, strings, layout.structure, items, 0);
    assert(nodes_at(items, strings, 0) =~= Seq::empty());
    reveal(told_at);
    reveal(walked);
    assert forall|i: int| 0 <= i < items.len() && (#[trigger] items[i]) is Value implies
        items[i]->Value_0 >= 0 by {
        assert(item_at(structure, strings, place(items, layout.structure, i), items[i]));
    }
}

/// Whether a node describes the power firmware: by its name or by a driver that suits it.
pub open spec fn is_psci(items: Seq<Item>, strings: Seq<u8>, b: int) -> bool {
    &&& 0 <= b < items.len()
    &&& items[b] is Begin
    &&& items[b]->Begin_0 == "psci".spec_bytes() || suits(items, strings, b, "arm,psci-0.2")
        || suits(items, strings, b, "arm,psci-1.0")
}

/// The conduit of a node is the one that its method reads.
#[verifier::spinoff_prover]
proof fn lemma_node_conduit(items: Seq<Item>, strings: Seq<u8>, b: int, k: int, hvc: bool)
    requires
        0 <= b < k <= items.len(),
        items[b] is Begin,
        names_stand(items),
    ensures
        ({
            let conduit = node_at(items, strings, b, k).psci_conduit;
            let word = if hvc {
                "hvc"
            } else {
                "smc"
            };
            &&& conduit == PsciConduit::Hvc ==> exists|i: int| #[trigger]
                has_property(items, strings, b, i, "method") && reads(value_of(items[i]), "hvc")
            &&& conduit == PsciConduit::Smc ==> exists|i: int| #[trigger]
                has_property(items, strings, b, i, "method") && reads(value_of(items[i]), "smc")
            &&& (forall|i: int| #[trigger]
                has_property(items, strings, b, i, "method") ==> reads(value_of(items[i]), word))
                && (exists|i: int| i < k && #[trigger] has_property(items, strings, b, i, "method"))
                ==> conduit == (if hvc {
                PsciConduit::Hvc
            } else {
                PsciConduit::Smc
            })
        }),
    decreases k,
{
    if k == b + 1 {
        lemma_new_node(items, strings, b);
        assert forall|i: int| i < k implies !#[trigger] has_property(
            items,
            strings,
            b,
            i,
            "method",
        ) by {
            if owns(items, b, i) {
                lemma_open(items, i);
                assert(open_at(items, i)[open_at(items, i).len() - 1] < i);
            }
        }
    } else {
        lemma_node_conduit(items, strings, b, k - 1, hvc);
        lemma_node(items, strings, b, k - 1);
        if owns(items, b, k - 1) {
            lemma_property(
                node_at(items, strings, b, k - 1),
                strings,
                items[k - 1]->Value_0,
                items[k - 1]->Value_1,
            );
            assert(items[k - 1] == Item::Value(items[k - 1]->Value_0, items[k - 1]->Value_1));
        }
        if has_property(items, strings, b, k - 1, "method") {
            let value = value_of(items[k - 1]);
            lemma_methods_differ(value);
        } else if exists|i: int| i < k && #[trigger] has_property(items, strings, b, i, "method") {
            let i = choose|i: int| i < k && #[trigger] has_property(items, strings, b, i, "method");
            assert(i < k - 1 && has_property(items, strings, b, i, "method"));
        }
    }
}

proof fn lemma_methods_differ(value: Seq<u8>)
    ensures
        !(reads(value, "hvc") && reads(value, "smc")),
{
    reveal_strlit("hvc");
    reveal_strlit("smc");
    vstd::string::is_ascii_spec_bytes("hvc");
    vstd::string::is_ascii_spec_bytes("smc");
    assert("hvc".spec_bytes()[0] == 104);
    assert("smc".spec_bytes()[0] == 115);
    assert("hvc".spec_bytes().push(0)[0] == 104);
    assert("smc".spec_bytes().push(0)[0] == 115);
}

/// What a node says of the conduit, if it says anything.
spec fn conduit_of(node: NodeView) -> Option<PsciConduit> {
    if node.psci && node.psci_conduit != PsciConduit::Unknown {
        Some(node.psci_conduit)
    } else {
        None
    }
}

/// Whether a node describes the power firmware and a method of it that is known.
pub open spec fn has_method(
    items: Seq<Item>,
    strings: Seq<u8>,
    b: int,
    i: int,
    word: &str,
) -> bool {
    is_psci(items, strings, b) && has_property(items, strings, b, i, "method") && reads(
        value_of(items[i]),
        word,
    )
}

/// If a node that describes the power firmware has the method "hvc" and no other, and no other
/// such node has a known method, the conduit is that of hypervisor calls; if it has the method
/// "smc", the conduit is that of secure monitor calls.
#[verifier::spinoff_prover]
pub proof fn law_conduit_is_the_method(
    memory: BootMemory,
    address: u64,
    layout: Layout,
    items: Seq<Item>,
    strings: Seq<u8>,
    p: int,
    m: int,
)
    requires
        holds_tree(memory, address, layout, items, strings),
        is_psci(items, strings, p),
        has_property(items, strings, p, m, "method"),
        forall|b: int, i: int|
            b != p ==> !#[trigger] has_method(items, strings, b, i, "hvc") && !has_method(
                items,
                strings,
                b,
                i,
                "smc",
            ),
    ensures
        (forall|i: int| #[trigger]
            has_property(items, strings, p, i, "method") ==> reads(value_of(items[i]), "hvc"))
            ==> discovered(memory, address).psci_conduit == PsciConduit::Hvc,
        (forall|i: int| #[trigger]
            has_property(items, strings, p, i, "method") ==> reads(value_of(items[i]), "smc"))
            ==> discovered(memory, address).psci_conduit == PsciConduit::Smc,
{
    lemma_tree(memory, address, layout, items, strings);
    if forall|i: int| #[trigger]
        has_property(items, strings, p, i, "method") ==> reads(value_of(items[i]), "hvc") {
        lemma_conduit(items, strings, p, m, true);
    }
    if forall|i: int| #[trigger]
        has_property(items, strings, p, i, "method") ==> reads(value_of(items[i]), "smc") {
        lemma_conduit(items, strings, p, m, false);
    }
}

proof fn lemma_psci_seen(items: Seq<Item>, strings: Seq<u8>, b: int, j: int)
    requires
        0 <= b < items.len(),
        items[b] is Begin,
        names_stand(items),
        ends(items, b, j),
    ensures
        b < j,
        node_at(items, strings, b, j).psci == is_psci(items, strings, b),
{
    lemma_open(items, j);
    assert(open_at(items, j)[open_at(items, j).len() - 1] == b);
    lemma_node_kind(items, strings, b, j);
    lemma_suits_all(items, strings, b, j, "arm,psci-0.2");
    lemma_suits_all(items, strings, b, j, "arm,psci-1.0");
}

/// At the end of a node all that suits it is known.
proof fn lemma_suits_all(items: Seq<Item>, strings: Seq<u8>, b: int, j: int, driver: &str)
    requires
        ends(items, b, j),
    ensures
        suits_by(items, strings, b, j, driver) == suits(items, strings, b, driver),
{
    if suits(items, strings, b, driver) {
        let i = choose|i: int| #[trigger] names_driver(items, strings, b, i, driver);
        lemma_owned_before_end(items, b, j, i);
        assert(i < j && names_driver(items, strings, b, i, driver));
    }
    if suits_by(items, strings, b, j, driver) {
        let i = choose|i: int| i < j && #[trigger] names_driver(items, strings, b, i, driver);
        assert(names_driver(items, strings, b, i, driver));
    }
}

#[verifier::spinoff_prover]
proof fn lemma_conduit(items: Seq<Item>, strings: Seq<u8>, p: int, m: int, hvc: bool)
    requires
        is_tree(items),
        names_stand(items),
        told_at(items, strings, 0) == (DiscoveryView { valid: true, ..nothing_discovered() }),
        is_psci(items, strings, p),
        has_property(items, strings, p, m, "method"),
        forall|b: int, i: int|
            b != p ==> !#[trigger] has_method(items, strings, b, i, "hvc") && !has_method(
                items,
                strings,
                b,
                i,
                "smc",
            ),
        forall|i: int| #[trigger]
            has_property(items, strings, p, i, "method") ==> reads(
                value_of(items[i]),
                if hvc {
                    "hvc"
                } else {
                    "smc"
                },
            ),
    ensures
        told_at(items, strings, items.len() - 1).psci_conduit == (if hvc {
            PsciConduit::Hvc
        } else {
            PsciConduit::Smc
        }),
{
    let value = if hvc {
        PsciConduit::Hvc
    } else {
        PsciConduit::Smc
    };
    let field = |told: DiscoveryView| told.psci_conduit;
    let decides = |node: NodeView| conduit_of(node);
    assert forall|j: int| #[trigger] ends(items, p, j) implies decides(
        node_at(items, strings, p, j),
    ) == Some(value) by {
        lemma_psci_seen(items, strings, p, j);
        lemma_owned_before_end(items, p, j, m);
        lemma_node_conduit(items, strings, p, j, hvc);
        assert(m < j && has_property(items, strings, p, m, "method"));
    }
    assert forall|b: int, j: int| b != p && #[trigger] ends(items, b, j) implies decides(
        node_at(items, strings, b, j),
    ) == None::<PsciConduit> by {
        lemma_open(items, j);
        assert(open_at(items, j)[open_at(items, j).len() - 1] == b);
        lemma_psci_seen(items, strings, b, j);
        lemma_node_conduit(items, strings, b, j, true);
        if is_psci(items, strings, b) {
            assert forall|i: int| #[trigger]
                has_property(items, strings, b, i, "method") implies !reads(
                value_of(items[i]),
                "hvc",
            ) && !reads(value_of(items[i]), "smc") by {
                assert(!has_method(items, strings, b, i, "hvc"));
            }
        }
    }
    assert(p < items.len() - 1);
    lemma_decided(items, strings, p, field, decides, value, items.len() - 1);
    assert(field(told_at(items, strings, items.len() - 1)) == value);
}

/// Whether a node says, before item `k`, how many cells its children count.
pub open spec fn declares(
    items: Seq<Item>,
    strings: Seq<u8>,
    b: int,
    k: int,
    name: &str,
    count: int,
) -> bool {
    &&& exists|i: int| i < k && #[trigger] has_property(items, strings, b, i, name)
    &&& forall|i: int| #[trigger]
        has_property(items, strings, b, i, name) ==> value_of(items[i]).len() == 4 && number_at(
            value_of(items[i]),
            0,
            count,
        )
}

/// Whether a number of one or two cells stands somewhere, the highest byte first.
pub open spec fn cells_at(value: Seq<u8>, at: int, count: int, number: int) -> bool {
    if count == 1 {
        number_at(value, at, number)
    } else {
        number_at(value, at, number / 0x1_0000_0000) && number_at(
            value,
            at + 4,
            number % 0x1_0000_0000,
        )
    }
}

proof fn lemma_cells(value: Seq<u8>, at: int, count: int, number: int)
    requires
        cells_at(value, at, count, number),
    ensures
        firmware::cells(value, at, count) == number,
{
    if count == 1 {
        lemma_number(value, at, number);
    } else {
        lemma_number(value, at, number / 0x1_0000_0000);
        lemma_number(value, at + 4, number % 0x1_0000_0000);
    }
}

/// A property of a node stands behind its beginning.
proof fn lemma_owned_after_begin(items: Seq<Item>, b: int, i: int)
    requires
        owns(items, b, i),
    ensures
        0 <= b < i,
        items[b] is Begin,
{
    lemma_open(items, i);
    assert(open_at(items, i)[open_at(items, i).len() - 1] == b);
}

#[verifier::spinoff_prover]
proof fn lemma_declared(
    items: Seq<Item>,
    strings: Seq<u8>,
    b: int,
    k: int,
    count: int,
    address: bool,
)
    requires
        0 <= b < k <= items.len(),
        items[b] is Begin,
        names_stand(items),
        declares(
            items,
            strings,
            b,
            k,
            if address {
                "#address-cells"
            } else {
                "#size-cells"
            },
            count,
        ),
    ensures
        address ==> node_at(items, strings, b, k).child_address_cells == count,
        !address ==> node_at(items, strings, b, k).child_size_cells == count,
    decreases k,
{
    let name = if address {
        "#address-cells"
    } else {
        "#size-cells"
    };
    let i = choose|i: int| i < k && #[trigger] has_property(items, strings, b, i, name);
    lemma_owned_after_begin(items, b, i);
    let value = value_of(items[k - 1]);
    lemma_node(items, strings, b, k - 1);
    if owns(items, b, k - 1) {
        lemma_property(
            node_at(items, strings, b, k - 1),
            strings,
            items[k - 1]->Value_0,
            items[k - 1]->Value_1,
        );
        assert(items[k - 1] == Item::Value(items[k - 1]->Value_0, items[k - 1]->Value_1));
    }
    if has_property(items, strings, b, k - 1, name) {
        lemma_number(value, 0, count);
    } else {
        assert(i < k - 1 && has_property(items, strings, b, i, name));
        lemma_declared(items, strings, b, k - 1, count, address);
    }
}

/// A node counts the cells that its parent declares, and is a processor only among processors.
proof fn lemma_counted(items: Seq<Item>, strings: Seq<u8>, b: int, k: int)
    requires
        0 <= b < k,
        items[b] is Begin,
        names_stand(items),
    ensures
        ({
            let node = node_at(items, strings, b, k);
            let first = node_at(items, strings, b, b + 1);
            &&& node.parent_address_cells == first.parent_address_cells
            &&& node.parent_size_cells == first.parent_size_cells
            &&& node.cpu == first.cpu
            &&& node.cpus_container == first.cpus_container
        }),
    decreases k,
{
    if k > b + 1 {
        lemma_counted(items, strings, b, k - 1);
        lemma_node(items, strings, b, k - 1);
        if owns(items, b, k - 1) {
            lemma_property(
                node_at(items, strings, b, k - 1),
                strings,
                items[k - 1]->Value_0,
                items[k - 1]->Value_1,
            );
        }
    }
}

/// A node of a bus that declares how many cells it counts, with one property that lists its
/// register windows.
pub open spec fn has_windows(
    items: Seq<Item>,
    strings: Seq<u8>,
    g: int,
    r: int,
    address_cells: int,
    size_cells: int,
) -> bool {
    let above = open_at(items, g);
    &&& 0 <= g < items.len()
    &&& items[g] is Begin
    &&& above.len() > 0
    &&& items[above.last()]->Begin_0 != "cpus".spec_bytes()
    &&& declares(items, strings, above.last(), g, "#address-cells", address_cells)
    &&& declares(items, strings, above.last(), g, "#size-cells", size_cells)
    &&& 1 <= address_cells <= 2
    &&& 1 <= size_cells <= 2
    &&& has_property(items, strings, g, r, "reg")
    &&& forall|i: int| #[trigger] has_property(items, strings, g, i, "reg") ==> i == r
}

#[verifier::spinoff_prover]
proof fn lemma_windows(
    items: Seq<Item>,
    strings: Seq<u8>,
    g: int,
    r: int,
    address_cells: int,
    size_cells: int,
    k: int,
)
    requires
        names_stand(items),
        has_windows(items, strings, g, r, address_cells, size_cells),
        g < k <= items.len(),
    ensures
        node_at(items, strings, g, k).registers == (if k <= r {
            Seq::empty()
        } else {
            register_bases(Seq::empty(), value_of(items[r]), 0, address_cells, size_cells)
        }),
    decreases k,
{
    let above = open_at(items, g);
    let q = above.last();
    lemma_open(items, g);
    assert(above[above.len() - 1] == q);
    lemma_declared(items, strings, q, g, address_cells, true);
    lemma_declared(items, strings, q, g, size_cells, false);
    lemma_new_node(items, strings, g);
    lemma_new_node(items, strings, q);
    lemma_counted(items, strings, q, g);
    lemma_owned_after_begin(items, g, r);
    if k == g + 1 {
        assert(node_at(items, strings, g, k).registers =~= Seq::empty());
    } else {
        lemma_windows(items, strings, g, r, address_cells, size_cells, k - 1);
        lemma_counted(items, strings, g, k - 1);
        lemma_node(items, strings, g, k - 1);
        if owns(items, g, k - 1) {
            lemma_property(
                node_at(items, strings, g, k - 1),
                strings,
                items[k - 1]->Value_0,
                items[k - 1]->Value_1,
            );
            assert(items[k - 1] == Item::Value(items[k - 1]->Value_0, items[k - 1]->Value_1));
            if k - 1 != r {
                assert(!has_property(items, strings, g, k - 1, "reg"));
            }
        }
    }
}

/// What the windows of a node begin with.
proof fn lemma_bases(value: Seq<u8>, address_cells: int, size_cells: int)
    requires
        1 <= address_cells <= 2,
        1 <= size_cells <= 2,
    ensures
        ({
            let pair = 4 * (address_cells + size_cells);
            let bases = register_bases(Seq::empty(), value, 0, address_cells, size_cells);
            &&& pair <= value.len() ==> bases.len() > 0 && bases[0] == firmware::cells(
                value,
                0,
                address_cells,
            )
            &&& 2 * pair <= value.len() ==> bases.len() >= 2 && bases[1] == firmware::cells(
                value,
                pair,
                address_cells,
            )
        }),
{
    let pair = 4 * (address_cells + size_cells);
    let first = firmware::cells(value, 0, address_cells);
    let second = firmware::cells(value, pair, address_cells);
    let none = Seq::<u64>::empty();
    let bases = register_bases(none, value, 0, address_cells, size_cells);
    let one = none.push(first);
    let two = one.push(second);
    if pair <= value.len() {
        assert(bases == register_bases(one, value, pair, address_cells, size_cells));
        lemma_bases_grow(one, value, pair, address_cells, size_cells);
        assert(bases.take(1)[0] == one[0]);
    }
    if 2 * pair <= value.len() {
        assert(bases == register_bases(two, value, 2 * pair, address_cells, size_cells));
        lemma_bases_grow(two, value, 2 * pair, address_cells, size_cells);
        assert(bases.take(2)[1] == two[1]);
    }
}

proof fn lemma_bases_grow(
    known: Seq<u64>,
    value: Seq<u8>,
    at: int,
    address_cells: int,
    size_cells: int,
)
    ensures
        ({
            let bases = register_bases(known, value, at, address_cells, size_cells);
            bases.len() >= known.len() && bases.take(known.len() as int) == known
        }),
    decreases value.len() - at,
{
    let pair = 4 * (address_cells + size_cells);
    let bases = register_bases(known, value, at, address_cells, size_cells);
    if pair <= 0 || at < 0 || at + pair > value.len() || known.len() >= 4 {
        assert(known.take(known.len() as int) =~= known);
    } else {
        let more = known.push(firmware::cells(value, at, address_cells));
        lemma_bases_grow(more, value, at + pair, address_cells, size_cells);
        assert(bases.take(known.len() as int) =~= known) by {
            assert forall|i: int| 0 <= i < known.len() implies bases[i] == known[i] by {
                assert(bases.take(more.len() as int)[i] == more[i]);
            }
        }
    }
}

/// Whether the interrupt controller driver suits a node.
pub open spec fn is_gic(items: Seq<Item>, strings: Seq<u8>, b: int) -> bool {
    suits(items, strings, b, "arm,gic-400") || suits(items, strings, b, "arm,cortex-a15-gic")
}

/// What a node says of a base, if it says anything.
spec fn base_of(kind: bool, node: NodeView, window: int, count: int) -> Option<u64> {
    if kind && node.registers.len() >= count {
        Some(node.registers[window])
    } else {
        None
    }
}

/// At the end of a node its kind is known.
proof fn lemma_kind_seen(items: Seq<Item>, strings: Seq<u8>, b: int, j: int)
    requires
        names_stand(items),
        ends(items, b, j),
    ensures
        0 <= b < j,
        items[b] is Begin,
        node_at(items, strings, b, j).gic == is_gic(items, strings, b),
        node_at(items, strings, b, j).system_timer == suits(
            items,
            strings,
            b,
            "brcm,bcm2835-system-timer",
        ),
        node_at(items, strings, b, j).pcie == suits(items, strings, b, "brcm,bcm2712-pcie"),
{
    lemma_open(items, j);
    assert(open_at(items, j)[open_at(items, j).len() - 1] == b);
    lemma_node_kind(items, strings, b, j);
    lemma_suits_all(items, strings, b, j, "arm,gic-400");
    lemma_suits_all(items, strings, b, j, "arm,cortex-a15-gic");
    lemma_suits_all(items, strings, b, j, "brcm,bcm2835-system-timer");
    lemma_suits_all(items, strings, b, j, "brcm,bcm2712-pcie");
}

/// At the end of a node with register windows it is known where the first two begin.
#[verifier::spinoff_prover]
proof fn lemma_windows_seen(
    items: Seq<Item>,
    strings: Seq<u8>,
    g: int,
    r: int,
    address_cells: int,
    size_cells: int,
    j: int,
)
    requires
        names_stand(items),
        has_windows(items, strings, g, r, address_cells, size_cells),
        ends(items, g, j),
    ensures
        ({
            let value = value_of(items[r]);
            let pair = 4 * (address_cells + size_cells);
            let bases = node_at(items, strings, g, j).registers;
            &&& pair <= value.len() ==> bases.len() > 0 && bases[0] == firmware::cells(
                value,
                0,
                address_cells,
            )
            &&& 2 * pair <= value.len() ==> bases.len() >= 2 && bases[1] == firmware::cells(
                value,
                pair,
                address_cells,
            )
        }),
{
    lemma_bases(value_of(items[r]), address_cells, size_cells);
    lemma_owned_before_end(items, g, j, r);
    lemma_windows(items, strings, g, r, address_cells, size_cells, j);
}

#[verifier::spinoff_prover]
proof fn lemma_gic_bases(
    items: Seq<Item>,
    strings: Seq<u8>,
    g: int,
    r: int,
    address_cells: int,
    size_cells: int,
    distributor: int,
    interface: int,
)
    requires
        is_tree(items),
        names_stand(items),
        has_windows(items, strings, g, r, address_cells, size_cells),
        8 * (address_cells + size_cells) <= value_of(items[r]).len(),
        cells_at(value_of(items[r]), 0, address_cells, distributor),
        cells_at(
            value_of(items[r]),
            4 * (address_cells + size_cells),
            address_cells,
            interface,
        ),
        is_gic(items, strings, g),
        forall|b: int| b != g ==> !#[trigger] is_gic(items, strings, b),
    ensures
        told_at(items, strings, items.len() - 1).gic_distributor_base == distributor,
        told_at(items, strings, items.len() - 1).gic_cpu_interface_base == interface,
{
    let value = value_of(items[r]);
    let end = items.len() - 1;
    lemma_cells(value, 0, address_cells, distributor);
    let field_distributor = |told: DiscoveryView| told.gic_distributor_base;
    let decides_distributor = |node: NodeView| base_of(node.gic, node, 0, 2);
    lemma_cells(value, 4 * (address_cells + size_cells), address_cells, interface);
    let field_interface = |told: DiscoveryView| told.gic_cpu_interface_base;
    let decides_interface = |node: NodeView| base_of(node.gic, node, 1, 2);
    assert forall|j: int| #[trigger] ends(items, g, j) implies decides_distributor(
        node_at(items, strings, g, j),
    ) == Some(distributor as u64) && decides_interface(
        node_at(items, strings, g, j),
    ) == Some(interface as u64) by {
        lemma_kind_seen(items, strings, g, j);
        lemma_windows_seen(items, strings, g, r, address_cells, size_cells, j);
    }
    assert forall|b: int, j: int| b != g && #[trigger] ends(items, b, j) implies decides_distributor(
        node_at(items, strings, b, j),
    ) == None::<u64> && decides_interface(
        node_at(items, strings, b, j),
    ) == None::<u64> by {
        lemma_kind_seen(items, strings, b, j);
    }
    lemma_decided(items, strings, g, field_distributor, decides_distributor, distributor as u64, end);
    assert(field_distributor(told_at(items, strings, end)) == distributor as u64);
    lemma_decided(items, strings, g, field_interface, decides_interface, interface as u64, end);
    assert(field_interface(told_at(items, strings, end)) == interface as u64);
}

/// If one node alone is an interrupt controller and it has two register windows, the distributor
/// begins where the first begins, and the interface of the processors where the second does.
pub proof fn law_controller_begins_with_its_windows(
    memory: BootMemory,
    address: u64,
    layout: Layout,
    items: Seq<Item>,
    strings: Seq<u8>,
    g: int,
    r: int,
    address_cells: int,
    size_cells: int,
    distributor: int,
    interface: int,
)
    requires
        holds_tree(memory, address, layout, items, strings),
        has_windows(items, strings, g, r, address_cells, size_cells),
        8 * (address_cells + size_cells) <= value_of(items[r]).len(),
        cells_at(value_of(items[r]), 0, address_cells, distributor),
        cells_at(
            value_of(items[r]),
            4 * (address_cells + size_cells),
            address_cells,
            interface,
        ),
        is_gic(items, strings, g),
        forall|b: int| b != g ==> !#[trigger] is_gic(items, strings, b),
    ensures
        discovered(memory, address).gic_distributor_base == distributor,
        discovered(memory, address).gic_cpu_interface_base == interface,
{
    lemma_tree(memory, address, layout, items, strings);
    lemma_gic_bases(items, strings, g, r, address_cells, size_cells, distributor, interface);
}

#[verifier::spinoff_prover]
proof fn lemma_system_timer_base(
    items: Seq<Item>,
    strings: Seq<u8>,
    g: int,
    r: int,
    address_cells: int,
    size_cells: int,
    base: int,
)
    requires
        is_tree(items),
        names_stand(items),
        has_windows(items, strings, g, r, address_cells, size_cells),
        4 * (address_cells + size_cells) <= value_of(items[r]).len(),
        cells_at(value_of(items[r]), 0, address_cells, base),
        suits(items, strings, g, "brcm,bcm2835-system-timer"),
        forall|b: int|
            b != g ==> !#[trigger] suits(items, strings, b, "brcm,bcm2835-system-timer"),
    ensures
        told_at(items, strings, items.len() - 1).system_timer_base == base,
{
    let value = value_of(items[r]);
    let end = items.len() - 1;
    lemma_cells(value, 0, address_cells, base);
    let field_base = |told: DiscoveryView| told.system_timer_base;
    let decides_base = |node: NodeView| base_of(node.system_timer, node, 0, 1);
    assert forall|j: int| #[trigger] ends(items, g, j) implies decides_base(
        node_at(items, strings, g, j),
    ) == Some(base as u64) by {
        lemma_kind_seen(items, strings, g, j);
        lemma_windows_seen(items, strings, g, r, address_cells, size_cells, j);
    }
    assert forall|b: int, j: int| b != g && #[trigger] ends(items, b, j) implies decides_base(
        node_at(items, strings, b, j),
    ) == None::<u64> by {
        lemma_kind_seen(items, strings, b, j);
    }
    lemma_decided(items, strings, g, field_base, decides_base, base as u64, end);
    assert(field_base(told_at(items, strings, end)) == base as u64);
}

/// If one node alone is a system timer, that begins where the first register window of the node
/// begins.
pub proof fn law_system_timer_begins_with_its_window(
    memory: BootMemory,
    address: u64,
    layout: Layout,
    items: Seq<Item>,
    strings: Seq<u8>,
    g: int,
    r: int,
    address_cells: int,
    size_cells: int,
    base: int,
)
    requires
        holds_tree(memory, address, layout, items, strings),
        has_windows(items, strings, g, r, address_cells, size_cells),
        4 * (address_cells + size_cells) <= value_of(items[r]).len(),
        cells_at(value_of(items[r]), 0, address_cells, base),
        suits(items, strings, g, "brcm,bcm2835-system-timer"),
        forall|b: int|
            b != g ==> !#[trigger] suits(items, strings, b, "brcm,bcm2835-system-timer"),
    ensures
        discovered(memory, address).system_timer_base == base,
{
    lemma_tree(memory, address, layout, items, strings);
    lemma_system_timer_base(items, strings, g, r, address_cells, size_cells, base);
}

#[verifier::spinoff_prover]
proof fn lemma_pcie_base(
    items: Seq<Item>,
    strings: Seq<u8>,
    g: int,
    r: int,
    address_cells: int,
    size_cells: int,
    base: int,
)
    requires
        is_tree(items),
        names_stand(items),
        has_windows(items, strings, g, r, address_cells, size_cells),
        4 * (address_cells + size_cells) <= value_of(items[r]).len(),
        cells_at(value_of(items[r]), 0, address_cells, base),
        suits(items, strings, g, "brcm,bcm2712-pcie"),
        forall|b: int|
            b != g ==> !#[trigger] suits(items, strings, b, "brcm,bcm2712-pcie"),
    ensures
        told_at(items, strings, items.len() - 1).pcie_controller_base == base,
{
    let value = value_of(items[r]);
    let end = items.len() - 1;
    lemma_cells(value, 0, address_cells, base);
    let field_base = |told: DiscoveryView| told.pcie_controller_base;
    let decides_base = |node: NodeView| base_of(node.pcie, node, 0, 1);
    assert forall|j: int| #[trigger] ends(items, g, j) implies decides_base(
        node_at(items, strings, g, j),
    ) == Some(base as u64) by {
        lemma_kind_seen(items, strings, g, j);
        lemma_windows_seen(items, strings, g, r, address_cells, size_cells, j);
    }
    assert forall|b: int, j: int| b != g && #[trigger] ends(items, b, j) implies decides_base(
        node_at(items, strings, b, j),
    ) == None::<u64> by {
        lemma_kind_seen(items, strings, b, j);
    }
    lemma_decided(items, strings, g, field_base, decides_base, base as u64, end);
    assert(field_base(told_at(items, strings, end)) == base as u64);
}

/// If one node alone is a PCI Express controller, that begins where the first register window of the node
/// begins.
pub proof fn law_pcie_begins_with_its_window(
    memory: BootMemory,
    address: u64,
    layout: Layout,
    items: Seq<Item>,
    strings: Seq<u8>,
    g: int,
    r: int,
    address_cells: int,
    size_cells: int,
    base: int,
)
    requires
        holds_tree(memory, address, layout, items, strings),
        has_windows(items, strings, g, r, address_cells, size_cells),
        4 * (address_cells + size_cells) <= value_of(items[r]).len(),
        cells_at(value_of(items[r]), 0, address_cells, base),
        suits(items, strings, g, "brcm,bcm2712-pcie"),
        forall|b: int|
            b != g ==> !#[trigger] suits(items, strings, b, "brcm,bcm2712-pcie"),
    ensures
        discovered(memory, address).pcie_controller_base == base,
{
    lemma_tree(memory, address, layout, items, strings);
    lemma_pcie_base(items, strings, g, r, address_cells, size_cells, base);
}

/// Whether a node is that of a processor: its parent lists processors, and its name says so.
pub open spec fn is_processor(items: Seq<Item>, b: int) -> bool {
    &&& 0 <= b < items.len()
    &&& items[b] is Begin
    &&& open_at(items, b).len() > 0
    &&& items[open_at(items, b).last()]->Begin_0 == "cpus".spec_bytes()
    &&& bytes_at(items[b]->Begin_0, 0, "cpu@".spec_bytes())
}

/// Whether a node says of itself that it cannot be used.
pub open spec fn is_disabled(items: Seq<Item>, strings: Seq<u8>, b: int) -> bool {
    &&& exists|i: int| #[trigger] has_property(items, strings, b, i, "status")
    &&& forall|i: int| #[trigger]
        has_property(items, strings, b, i, "status") ==> reads(value_of(items[i]), "disabled")
}

/// Whether a node says nothing against its use.
pub open spec fn is_enabled(items: Seq<Item>, strings: Seq<u8>, b: int) -> bool {
    forall|i: int| #[trigger]
        has_property(items, strings, b, i, "status") ==> !reads(value_of(items[i]), "disabled")
}

/// Whether a node, whose parent declares how many cells an address has, gives a number.
pub open spec fn has_number(
    items: Seq<Item>,
    strings: Seq<u8>,
    b: int,
    r: int,
    address_cells: int,
    number: int,
) -> bool {
    &&& 1 <= address_cells <= 2
    &&& declares(
        items,
        strings,
        open_at(items, b).last(),
        b,
        "#address-cells",
        address_cells,
    )
    &&& has_property(items, strings, b, r, "reg")
    &&& forall|i: int| #[trigger] has_property(items, strings, b, i, "reg") ==> i == r
    &&& cells_at(value_of(items[r]), 0, address_cells, number)
}

proof fn lemma_processor(items: Seq<Item>, strings: Seq<u8>, b: int, k: int)
    requires
        0 <= b < k <= items.len(),
        items[b] is Begin,
        names_stand(items),
    ensures
        node_at(items, strings, b, k).cpu == is_processor(items, b),
{
    lemma_counted(items, strings, b, k);
    lemma_new_node(items, strings, b);
    let above = open_at(items, b);
    if above.len() > 0 {
        let q = above.last();
        lemma_open(items, b);
        assert(above[above.len() - 1] == q);
        lemma_counted(items, strings, q, b);
        lemma_new_node(items, strings, q);
    }
}

#[verifier::spinoff_prover]
proof fn lemma_enabled(items: Seq<Item>, strings: Seq<u8>, b: int, k: int)
    requires
        0 <= b < k <= items.len(),
        items[b] is Begin,
        names_stand(items),
    ensures
        is_enabled(items, strings, b) ==> node_at(items, strings, b, k).enabled,
        is_disabled(items, strings, b) && (exists|i: int|
            i < k && #[trigger] has_property(items, strings, b, i, "status")) ==> !node_at(
            items,
            strings,
            b,
            k,
        ).enabled,
    decreases k,
{
    if k == b + 1 {
        lemma_new_node(items, strings, b);
        assert forall|i: int| i < k implies !#[trigger] has_property(
            items,
            strings,
            b,
            i,
            "status",
        ) by {
            if owns(items, b, i) {
                lemma_owned_after_begin(items, b, i);
            }
        }
    } else {
        lemma_enabled(items, strings, b, k - 1);
        lemma_node(items, strings, b, k - 1);
        if owns(items, b, k - 1) {
            lemma_property(
                node_at(items, strings, b, k - 1),
                strings,
                items[k - 1]->Value_0,
                items[k - 1]->Value_1,
            );
            assert(items[k - 1] == Item::Value(items[k - 1]->Value_0, items[k - 1]->Value_1));
        }
        if has_property(items, strings, b, k - 1, "status") {
        } else if exists|i: int| i < k && #[trigger] has_property(items, strings, b, i, "status") {
            let i = choose|i: int| i < k && #[trigger] has_property(items, strings, b, i, "status");
            assert(i < k - 1 && has_property(items, strings, b, i, "status"));
        }
    }
}

#[verifier::spinoff_prover]
proof fn lemma_processor_number(
    items: Seq<Item>,
    strings: Seq<u8>,
    b: int,
    r: int,
    address_cells: int,
    number: int,
    k: int,
)
    requires
        names_stand(items),
        is_processor(items, b),
        has_number(items, strings, b, r, address_cells, number),
        r < k <= items.len(),
    ensures
        node_at(items, strings, b, k).cpu_mpidr == number,
    decreases k,
{
    let above = open_at(items, b);
    let q = above.last();
    lemma_open(items, b);
    assert(above[above.len() - 1] == q);
    lemma_owned_after_begin(items, b, r);
    lemma_node(items, strings, b, k - 1);
    if owns(items, b, k - 1) {
        lemma_property(
            node_at(items, strings, b, k - 1),
            strings,
            items[k - 1]->Value_0,
            items[k - 1]->Value_1,
        );
        assert(items[k - 1] == Item::Value(items[k - 1]->Value_0, items[k - 1]->Value_1));
    }
    if k - 1 == r {
        lemma_declared(items, strings, q, b, address_cells, true);
        lemma_new_node(items, strings, b);
        lemma_counted(items, strings, b, r);
        lemma_processor(items, strings, b, r);
        lemma_cells(value_of(items[r]), 0, address_cells, number);
    } else {
        lemma_processor_number(items, strings, b, r, address_cells, number, k - 1);
        if owns(items, b, k - 1) {
            assert(!has_property(items, strings, b, k - 1, "reg"));
        }
    }
}

/// Whether a processor waits in a loop until it is released, by a number of eight bytes that says
/// where it looks.
pub open spec fn waits_at(
    items: Seq<Item>,
    strings: Seq<u8>,
    b: int,
    m: int,
    a: int,
    number: int,
) -> bool {
    &&& has_property(items, strings, b, m, "enable-method")
    &&& forall|i: int| #[trigger]
        has_property(items, strings, b, i, "enable-method") ==> reads(
            value_of(items[i]),
            "spin-table",
        )
    &&& has_property(items, strings, b, a, "cpu-release-addr")
    &&& forall|i: int| #[trigger]
        has_property(items, strings, b, i, "cpu-release-addr") ==> i == a
    &&& value_of(items[a]).len() == 8
    &&& cells_at(value_of(items[a]), 0, 2, number)
}

#[verifier::spinoff_prover]
proof fn lemma_waiting(
    items: Seq<Item>,
    strings: Seq<u8>,
    b: int,
    m: int,
    a: int,
    number: int,
    k: int,
)
    requires
        names_stand(items),
        waits_at(items, strings, b, m, a, number),
        0 <= b < k <= items.len(),
    ensures
        m < k ==> node_at(items, strings, b, k).spin_table,
        a < k ==> node_at(items, strings, b, k).release_address == number,
    decreases k,
{
    lemma_owned_after_begin(items, b, m);
    lemma_owned_after_begin(items, b, a);
    if k > b + 1 {
        lemma_waiting(items, strings, b, m, a, number, k - 1);
        lemma_node(items, strings, b, k - 1);
        if owns(items, b, k - 1) {
            lemma_property(
                node_at(items, strings, b, k - 1),
                strings,
                items[k - 1]->Value_0,
                items[k - 1]->Value_1,
            );
            assert(items[k - 1] == Item::Value(items[k - 1]->Value_0, items[k - 1]->Value_1));
            if has_property(items, strings, b, k - 1, "cpu-release-addr") {
                lemma_cells(value_of(items[a]), 0, 2, number);
            }
            if has_property(items, strings, b, k - 1, "enable-method") {
                assert(reads(value_of(items[k - 1]), "spin-table"));
            }
        }
    }
}

/// Nodes that end one after the other, with the items that end them.
pub open spec fn end_in_order(items: Seq<Item>, nodes: Seq<int>, closing: Seq<int>) -> bool {
    &&& nodes.len() == closing.len()
    &&& forall|n: int| 0 <= n < nodes.len() ==> #[trigger] ends(items, nodes[n], closing[n])
    &&& forall|m: int, n: int|
        0 <= m < n < closing.len() ==> (#[trigger] closing[m]) < (#[trigger] closing[n])
}

/// The processors that are listed once the first `count` of the nodes have ended.
spec fn cpus_are(
    items: Seq<Item>,
    strings: Seq<u8>,
    nodes: Seq<int>,
    closing: Seq<int>,
    cpus: Seq<CpuBootInfo>,
    count: int,
) -> bool {
    &&& cpus.len() == count
    &&& forall|n: int|
        0 <= n < count ==> {
            let node = node_at(items, strings, nodes[n], closing[n]);
            &&& (#[trigger] cpus[n]).enabled
            &&& cpus[n].mpidr == node.cpu_mpidr
            &&& cpus[n].spin_table == node.spin_table
            &&& cpus[n].release_address == node.release_address
        }
}

/// How many of the nodes have ended before an item.
spec fn ended(closing: Seq<int>, k: int, count: int) -> bool {
    &&& 0 <= count <= closing.len()
    &&& forall|n: int| 0 <= n < count ==> (#[trigger] closing[n]) < k
    &&& forall|n: int| count <= n < closing.len() ==> (#[trigger] closing[n]) >= k
}

#[verifier::spinoff_prover]
proof fn lemma_cpus(
    items: Seq<Item>,
    strings: Seq<u8>,
    nodes: Seq<int>,
    closing: Seq<int>,
    k: int,
) -> (count: int)
    requires
        is_tree(items),
        names_stand(items),
        told_at(items, strings, 0).cpus.len() == 0,
        nodes.len() <= 8,
        end_in_order(items, nodes, closing),
        forall|n: int|
            0 <= n < nodes.len() ==> is_processor(items, #[trigger] nodes[n]) && is_enabled(
                items,
                strings,
                nodes[n],
            ),
        forall|b: int| #[trigger]
            is_processor(items, b) && !nodes.contains(b) ==> is_disabled(items, strings, b),
        0 <= k < items.len(),
    ensures
        ended(closing, k, count),
        cpus_are(items, strings, nodes, closing, told_at(items, strings, k).cpus, count),
    decreases k,
{
    if k == 0 {
        assert forall|n: int| 0 <= n < closing.len() implies (#[trigger] closing[n]) >= k by {
            assert(ends(items, nodes[n], closing[n]));
        }
        0
    } else {
        let before = lemma_cpus(items, strings, nodes, closing, k - 1);
        lemma_told(items, strings, k - 1);
        if items[k - 1] is End {
            let b = open_at(items, k - 1).last();
            let open = open_at(items, k - 1);
            lemma_open(items, k - 1);
            assert(open[open.len() - 1] == b);
            lemma_processor(items, strings, b, k - 1);
            lemma_enabled(items, strings, b, k - 1);
            if nodes.contains(b) {
                let n = choose|n: int| 0 <= n < nodes.len() && nodes[n] == b;
                assert(ends(items, nodes[n], closing[n]));
                lemma_one_end(items, b, k - 1, closing[n]);
                assert(closing[n] == k - 1);
                assert(n == before) by {
                    if n < before {
                        assert(closing[n] < k - 1);
                    } else if n > before {
                        assert(closing[before] < closing[n]);
                    }
                }
                assert(is_processor(items, nodes[n]));
                assert forall|m: int| before + 1 <= m < closing.len() implies (
                #[trigger] closing[m]) >= k by {
                    assert(closing[before] < closing[m]);
                }
                before + 1
            } else {
                if is_processor(items, b) {
                    let i = choose|i: int| #[trigger]
                        has_property(items, strings, b, i, "status");
                    lemma_owned_before_end(items, b, k - 1, i);
                    assert(i < k - 1 && has_property(items, strings, b, i, "status"));
                }
                assert forall|n: int| before <= n < closing.len() implies (#[trigger] closing[n])
                    >= k by {
                    assert(ends(items, nodes[n], closing[n]));
                    assert(nodes.contains(nodes[n]));
                }
                before
            }
        } else {
            assert forall|n: int| before <= n < closing.len() implies (#[trigger] closing[n])
                >= k by {
                assert(ends(items, nodes[n], closing[n]));
            }
            before
        }
    }
}

/// A node ends once.
proof fn lemma_one_end(items: Seq<Item>, b: int, j: int, k: int)
    requires
        ends(items, b, j),
        ends(items, b, k),
    ensures
        j == k,
{
    lemma_end_is_last(items, b, j, k);
    lemma_end_is_last(items, b, k, j);
}

proof fn lemma_end_is_last(items: Seq<Item>, b: int, j: int, k: int)
    requires
        ends(items, b, j),
        ends(items, b, k),
    ensures
        k <= j,
{
    lemma_open(items, j);
    let open = open_at(items, j);
    assert(open[open.len() - 1] == b);
    if j < k {
        assert(open_at(items, j + 1) == open.drop_last());
        assert(!open.drop_last().contains(b)) by {
            if open.drop_last().contains(b) {
                let i = choose|i: int| 0 <= i < open.len() - 1 && open.drop_last()[i] == b;
                assert(open[i] < open[open.len() - 1]);
            }
        }
        lemma_closed(items, b, j + 1, k);
        assert(open_at(items, k).contains(b));
    }
}

#[verifier::spinoff_prover]
proof fn lemma_cpus_listed(
    items: Seq<Item>,
    strings: Seq<u8>,
    nodes: Seq<int>,
    closing: Seq<int>,
    n: int,
    r: int,
    address_cells: int,
    number: int,
)
    requires
        is_tree(items),
        names_stand(items),
        told_at(items, strings, 0).cpus.len() == 0,
        nodes.len() <= 8,
        end_in_order(items, nodes, closing),
        forall|m: int|
            0 <= m < nodes.len() ==> is_processor(items, #[trigger] nodes[m]) && is_enabled(
                items,
                strings,
                nodes[m],
            ),
        forall|b: int| #[trigger]
            is_processor(items, b) && !nodes.contains(b) ==> is_disabled(items, strings, b),
    ensures
        told_at(items, strings, items.len() - 1).cpus.len() == nodes.len(),
        0 <= n < nodes.len() && has_number(items, strings, nodes[n], r, address_cells, number)
            ==> told_at(items, strings, items.len() - 1).cpus[n].mpidr == number,
{
    let last = items.len() - 1;
    let count = lemma_cpus(items, strings, nodes, closing, last);
    if count < closing.len() {
        assert(closing[count] >= last);
        assert(ends(items, nodes[count], closing[count]));
    }
    if 0 <= n < nodes.len() && has_number(
        items,
        strings,
        nodes[n],
        r,
        address_cells,
        number,
    ) {
        assert(ends(items, nodes[n], closing[n]));
        assert(is_processor(items, nodes[n]));
        lemma_owned_before_end(items, nodes[n], closing[n], r);
        lemma_processor_number(
            items,
            strings,
            nodes[n],
            r,
            address_cells,
            number,
            closing[n],
        );
        assert(told_at(items, strings, last).cpus[n].mpidr == number);
    }
}

/// A processor that waits in a loop is listed so, with the place where it looks.
#[verifier::spinoff_prover]
proof fn lemma_cpu_waits(
    items: Seq<Item>,
    strings: Seq<u8>,
    nodes: Seq<int>,
    closing: Seq<int>,
    n: int,
    m: int,
    a: int,
    number: int,
)
    requires
        is_tree(items),
        names_stand(items),
        told_at(items, strings, 0).cpus.len() == 0,
        nodes.len() <= 8,
        end_in_order(items, nodes, closing),
        forall|j: int|
            0 <= j < nodes.len() ==> is_processor(items, #[trigger] nodes[j]) && is_enabled(
                items,
                strings,
                nodes[j],
            ),
        forall|b: int| #[trigger]
            is_processor(items, b) && !nodes.contains(b) ==> is_disabled(items, strings, b),
        0 <= n < nodes.len(),
        waits_at(items, strings, nodes[n], m, a, number),
    ensures
        told_at(items, strings, items.len() - 1).cpus.len() == nodes.len(),
        told_at(items, strings, items.len() - 1).cpus[n].spin_table,
        told_at(items, strings, items.len() - 1).cpus[n].release_address == number,
{
    let last = items.len() - 1;
    let count = lemma_cpus(items, strings, nodes, closing, last);
    if count < closing.len() {
        assert(closing[count] >= last);
        assert(ends(items, nodes[count], closing[count]));
    }
    assert(ends(items, nodes[n], closing[n]));
    assert(is_processor(items, nodes[n]));
    lemma_owned_before_end(items, nodes[n], closing[n], m);
    lemma_owned_before_end(items, nodes[n], closing[n], a);
    lemma_waiting(items, strings, nodes[n], m, a, number, closing[n]);
    assert(told_at(items, strings, last).cpus[n].spin_table);
}

/// A processor whose node says that it waits in a loop, and where it looks, is listed so. The
/// nodes are those of [`law_processors_are_listed`].
pub proof fn law_waiting_processors_are_listed(
    memory: BootMemory,
    address: u64,
    layout: Layout,
    items: Seq<Item>,
    strings: Seq<u8>,
    nodes: Seq<int>,
    closing: Seq<int>,
    n: int,
    m: int,
    a: int,
    number: int,
)
    requires
        holds_tree(memory, address, layout, items, strings),
        nodes.len() <= 8,
        end_in_order(items, nodes, closing),
        forall|j: int|
            0 <= j < nodes.len() ==> is_processor(items, #[trigger] nodes[j]) && is_enabled(
                items,
                strings,
                nodes[j],
            ),
        forall|b: int| #[trigger]
            is_processor(items, b) && !nodes.contains(b) ==> is_disabled(items, strings, b),
        0 <= n < nodes.len(),
        waits_at(items, strings, nodes[n], m, a, number),
    ensures
        n < discovered(memory, address).cpus.len(),
        discovered(memory, address).cpus[n].spin_table,
        discovered(memory, address).cpus[n].release_address == number,
{
    lemma_tree(memory, address, layout, items, strings);
    lemma_cpu_waits(items, strings, nodes, closing, n, m, a, number);
}

/// The processors are those whose nodes say nothing against their use, in the order in which
/// their nodes end, each with the number that its node gives. There must be at most eight, and
/// the other nodes of processors must say that they cannot be used.
#[verifier::spinoff_prover]
pub proof fn law_processors_are_listed(
    memory: BootMemory,
    address: u64,
    layout: Layout,
    items: Seq<Item>,
    strings: Seq<u8>,
    nodes: Seq<int>,
    closing: Seq<int>,
    n: int,
    r: int,
    address_cells: int,
    number: int,
)
    requires
        holds_tree(memory, address, layout, items, strings),
        nodes.len() <= 8,
        end_in_order(items, nodes, closing),
        forall|m: int|
            0 <= m < nodes.len() ==> is_processor(items, #[trigger] nodes[m]) && is_enabled(
                items,
                strings,
                nodes[m],
            ),
        forall|b: int| #[trigger]
            is_processor(items, b) && !nodes.contains(b) ==> is_disabled(items, strings, b),
    ensures
        discovered(memory, address).cpus.len() == nodes.len(),
        0 <= n < nodes.len() && has_number(items, strings, nodes[n], r, address_cells, number)
            ==> discovered(memory, address).cpus[n].mpidr == number,
{
    lemma_tree(memory, address, layout, items, strings);
    lemma_cpus_listed(items, strings, nodes, closing, n, r, address_cells, number);
}

} // verus!
