//! The nodes of the published graph and their content-addressed blocks.
//!
//! A node is a small tree of plain values. `libipld` serializes it as DAG-CBOR and
//! derives its identifier from the BLAKE3 hash of the bytes.

use libipld::cid::Cid;
use libipld::multihash::Code;
use libipld::Block;
use libipld::DefaultParams;
use libipld::Ipld;
use libipld::IpldCodec;
use vstd::prelude::*;

verus! {

/// `libipld::Ipld`, the value that `libipld` serializes. Nothing is said of what
/// such a value holds: it is made from a node and handed on to the encoder.
#[verifier::external_type_specification]
#[verifier::external_body]
pub struct ExIpld(Ipld);

/// The identifier of a block: the bytes of its CID.
#[derive(Debug)]
pub struct ContentId {
    pub bytes: Vec<u8>,
}

impl View for ContentId {
    type V = Seq<u8>;

    open spec fn view(&self) -> Seq<u8> {
        self.bytes@
    }
}

impl Clone for ContentId {
    fn clone(&self) -> (r: Self)
        ensures
            r@ == self@,
    {
        let bytes = self.bytes.clone();
        assert(bytes@ =~= self.bytes@);
        ContentId { bytes }
    }
}

/// A serialized node with its identifier.
#[derive(Debug)]
pub struct EncodedBlock {
    pub cid: ContentId,
    pub data: Vec<u8>,
}

/// What a block holds.
pub struct BlockView {
    pub cid: Seq<u8>,
    pub data: Seq<u8>,
}

impl View for EncodedBlock {
    type V = BlockView;

    open spec fn view(&self) -> BlockView {
        BlockView { cid: self.cid@, data: self.data@ }
    }
}

impl Clone for EncodedBlock {
    fn clone(&self) -> (r: Self)
        ensures
            r@ == self@,
    {
        let data = self.data.clone();
        EncodedBlock { cid: self.cid.clone(), data }
    }
}

/// One entry of a map node.
#[derive(Debug)]
pub struct Entry {
    pub key: String,
    pub value: Node,
}

/// A node of the data model, as far as the graph uses it.
#[derive(Debug)]
pub enum Node {
    Null,
    Integer(i128),
    Bytes(Vec<u8>),
    Link(ContentId),
    List(Vec<Node>),
    StringMap(Vec<Entry>),
}

/// What a node holds.
pub enum NodeView {
    Null,
    Integer(int),
    Bytes(Seq<u8>),
    Link(Seq<u8>),
    List(Seq<NodeView>),
    StringMap(Seq<(Seq<char>, NodeView)>),
}

impl View for Node {
    type V = NodeView;

    open spec fn view(&self) -> NodeView
        decreases self,
    {
        match self {
            Node::Null => NodeView::Null,
            Node::Integer(n) => NodeView::Integer(*n as int),
            Node::Bytes(b) => NodeView::Bytes(b@),
            Node::Link(c) => NodeView::Link(c@),
            Node::List(items) => NodeView::List(
                Seq::new(
                    items@.len(),
                    |i: int|
                        if 0 <= i < items@.len() {
                            items@[i].view()
                        } else {
                            NodeView::Null
                        },
                ),
            ),
            Node::StringMap(entries) => NodeView::StringMap(
                Seq::new(
                    entries@.len(),
                    |i: int|
                        if 0 <= i < entries@.len() {
                            (entries@[i].key@, entries@[i].value.view())
                        } else {
                            (Seq::empty(), NodeView::Null)
                        },
                ),
            ),
        }
    }
}

/// The identifiers that a sequence of `ContentId` holds.
pub open spec fn ids(links: Seq<ContentId>) -> Seq<Seq<u8>> {
    links.map_values(|c: ContentId| c@)
}

/// The identifier that an optional `ContentId` holds.
pub open spec fn optional_id(link: Option<ContentId>) -> Option<Seq<u8>> {
    match link {
        Some(c) => Some(c@),
        None => None,
    }
}

/// The node of a leaf: the payload of one cell, verbatim.
pub open spec fn leaf_shape(payload: Seq<u8>) -> NodeView {
    NodeView::Bytes(payload)
}

/// The node of a list of links, one for each identifier, in order.
pub open spec fn link_list_shape(links: Seq<Seq<u8>>) -> NodeView {
    NodeView::List(links.map_values(|c: Seq<u8>| NodeView::Link(c)))
}

/// The node of a link to `target`, or the null node where there is none.
pub open spec fn optional_link_shape(target: Option<Seq<u8>>) -> NodeView {
    match target {
        Some(c) => NodeView::Link(c),
        None => NodeView::Null,
    }
}

/// The root node of a matrix: a map of exactly three keys.
pub open spec fn root_shape(columns: Seq<Seq<u8>>, block: int, prev: Option<Seq<u8>>) -> NodeView {
    NodeView::StringMap(
        seq![
            ("columns"@, link_list_shape(columns)),
            ("block"@, NodeView::Integer(block)),
            ("prev"@, optional_link_shape(prev)),
        ],
    )
}

/// The block that `libipld` makes of a node: its DAG-CBOR bytes, and the CID of
/// version 1 that holds the BLAKE3 hash of them. No block where `libipld`
/// refuses the node.
pub uninterp spec fn dag_cbor_block(node: NodeView) -> Option<BlockView>;

/// The `Ipld` value of the same shape as `node`, variant for variant, with each
/// link read by `Cid::try_from`; `None` where a link does not hold the bytes of
/// a CID. Only `encode_block` calls it, to make the argument of `Block::encode`.
#[verifier::external_body]
fn to_ipld(node: &Node) -> Option<Ipld> {
    Some(
        match node {
            Node::Null => Ipld::Null,
            Node::Integer(n) => Ipld::Integer(*n),
            Node::Bytes(b) => Ipld::Bytes(b.clone()),
            Node::Link(c) => Ipld::Link(Cid::try_from(c.bytes.as_slice()).ok()?),
            Node::List(items) => Ipld::List(items.iter().map(to_ipld).collect::<Option<_>>()?),
            Node::StringMap(entries) => Ipld::StringMap(
                entries.iter().map(|e| Some((e.key.clone(), to_ipld(&e.value)?))).collect::<Option<_>>()?,
            ),
        },
    )
}

/// `Block::encode` of `libipld`, with the DAG-CBOR codec and the BLAKE3-256 hash.
/// The block it makes, or its refusal, is a function of the node alone, and
/// `dag_cbor_block` is the name of that function.
#[verifier::external_body]
fn encode_block(node: &Node) -> (r: Option<EncodedBlock>)
    ensures
        match r {
            Some(block) => dag_cbor_block(node@) == Some(block@),
            None => dag_cbor_block(node@) is None,
        },
{
    let ipld = to_ipld(node)?;
    let block = Block::<DefaultParams>::encode(IpldCodec::DagCbor, Code::Blake3_256, &ipld).ok()?;
    Some(EncodedBlock { cid: ContentId { bytes: block.cid().to_bytes() }, data: block.data().to_vec() })
}

/// The node of a leaf.
pub fn leaf_node(payload: Vec<u8>) -> (r: Node)
    ensures
        r@ == leaf_shape(payload@),
{
    Node::Bytes(payload)
}

/// The node of a list of links, one for each identifier, in order.
pub fn link_list_node(links: &Vec<ContentId>) -> (r: Node)
    ensures
        r@ == link_list_shape(ids(links@)),
{
    let mut items: Vec<Node> = Vec::new();
    let mut i: usize = 0;
    while i < links.len()
        invariant
            i <= links.len(),
            items.len() == i,
            forall|k: int| 0 <= k < i ==> (#[trigger] items[k])@ == NodeView::Link(links[k]@),
        decreases links.len() - i,
    {
        items.push(Node::Link(links[i].clone()));
        i += 1;
    }
    let node = Node::List(items);
    assert(node@ == link_list_shape(ids(links@))) by {
        assert(node@->List_0 =~= ids(links@).map_values(|c: Seq<u8>| NodeView::Link(c)));
    }
    node
}

/// The root node of a matrix.
pub fn root_node(columns: &Vec<ContentId>, block: i128, prev: &Option<ContentId>) -> (r: Node)
    ensures
        r@ == root_shape(ids(columns@), block as int, optional_id(*prev)),
{
    let target = match prev {
        Some(c) => Node::Link(c.clone()),
        None => Node::Null,
    };
    let columns_node = link_list_node(columns);
    let block_node = Node::Integer(block);
    let ghost shapes = (columns_node@, block_node@, target@);
    let mut entries: Vec<Entry> = Vec::new();
    entries.push(Entry { key: "columns".to_owned(), value: columns_node });
    entries.push(Entry { key: "block".to_owned(), value: block_node });
    entries.push(Entry { key: "prev".to_owned(), value: target });
    let node = Node::StringMap(entries);
    assert(node@->StringMap_0 =~= seq![
        ("columns"@, shapes.0),
        ("block"@, shapes.1),
        ("prev"@, shapes.2),
    ]);
    node
}

/// Serializes a node and addresses it by its content.
///
/// The block is `dag_cbor_block` of the node; `None` where `libipld` refuses it.
pub fn encode(node: &Node) -> (r: Option<EncodedBlock>)
    ensures
        match r {
            Some(block) => dag_cbor_block(node@) == Some(block@),
            None => dag_cbor_block(node@) is None,
        },
{
    encode_block(node)
}

} // verus!
