//! Reading the `sysconfig` section of a KDL document.
//!
//! The KDL text is parsed by the `kdl` crate; the nodes that the configuration
//! reads are copied into a plain tree ([`KdlTree`]), and the configuration is
//! extracted from that tree by verified code.
use vstd::prelude::*;
use crate::config::{AddressKind, AddressObject, AddressObjectV, Interface, InterfaceV, SysConfig, SysConfigV};
use crate::text::{append_chars, chars_eq, chars_of, dec_digits, message, string_from_chars, u64_to_dec};

verus! {

#[verifier::external_type_specification]
#[verifier::external_body]
pub struct ExKdlDocument(kdl::KdlDocument);

#[verifier::external_type_specification]
#[verifier::external_body]
pub struct ExKdlNode(kdl::KdlNode);

#[verifier::external_type_specification]
#[verifier::external_body]
pub struct ExKdlEntry(kdl::KdlEntry);

#[verifier::external_type_specification]
#[verifier::external_body]
pub struct ExKdlError(kdl::KdlError);

/// What the `kdl` crate parses from a text: the document where the text is valid
/// KDL, else the parse error.
pub uninterp spec fn kdl_parse(content: Seq<char>) -> Result<kdl::KdlDocument, kdl::KdlError>;

/// The nodes of a parsed document, in order.
pub uninterp spec fn kdl_doc_nodes(doc: kdl::KdlDocument) -> Seq<kdl::KdlNode>;

/// The name of a node.
pub uninterp spec fn kdl_node_name(node: kdl::KdlNode) -> Seq<char>;

/// The entries (arguments and properties) of a node, in order.
pub uninterp spec fn kdl_node_entries(node: kdl::KdlNode) -> Seq<kdl::KdlEntry>;

/// The child block of a node, if it has one.
pub uninterp spec fn kdl_node_children(node: kdl::KdlNode) -> Option<kdl::KdlDocument>;

/// The name of a property entry; arguments have none.
pub uninterp spec fn kdl_entry_name(entry: kdl::KdlEntry) -> Option<Seq<char>>;

/// The value of an entry.
pub uninterp spec fn kdl_entry_value(entry: kdl::KdlEntry) -> KdlScalarV;

/// The message of a parse error.
pub uninterp spec fn kdl_error_message(err: kdl::KdlError) -> Seq<char>;

/// Parses a text with `KdlDocument::from_str` of the `kdl` crate; which texts it
/// accepts and what document it builds is named, not written out.
#[verifier::external_body]
fn parse_kdl(content: &str) -> (r: Result<kdl::KdlDocument, kdl::KdlError>)
    ensures
        r == kdl_parse(content@),
{
    content.parse::<kdl::KdlDocument>()
}

/// `KdlDocument::nodes`: the document's nodes.
#[verifier::external_body]
fn doc_nodes(doc: &kdl::KdlDocument) -> (r: &[kdl::KdlNode])
    ensures
        r@ == kdl_doc_nodes(*doc),
{
    doc.nodes()
}

/// `KdlNode::name`: the text of the node's identifier.
#[verifier::external_body]
fn node_name(node: &kdl::KdlNode) -> (r: String)
    ensures
        r@ == kdl_node_name(*node),
{
    node.name().value().to_string()
}

/// `KdlNode::entries`: the node's entries.
#[verifier::external_body]
fn node_entries(node: &kdl::KdlNode) -> (r: &[kdl::KdlEntry])
    ensures
        r@ == kdl_node_entries(*node),
{
    node.entries()
}

/// `KdlNode::children`: the node's child document, if any.
#[verifier::external_body]
fn node_children(node: &kdl::KdlNode) -> (r: Option<&kdl::KdlDocument>)
    ensures
        r is None <==> kdl_node_children(*node) is None,
        r matches Some(d) ==> kdl_node_children(*node) == Some(*d),
{
    node.children()
}

/// `KdlEntry::name`: the property name of an entry, if it is a property.
#[verifier::external_body]
fn entry_name(entry: &kdl::KdlEntry) -> (r: Option<String>)
    ensures
        r is None <==> kdl_entry_name(*entry) is None,
        r matches Some(s) ==> kdl_entry_name(*entry) == Some(s@),
{
    entry.name().map(|n| n.value().to_string())
}

/// `KdlEntry::value`: the entry's value, with the variants the configuration
/// reads kept and the others (other number bases, floats, null) folded together.
#[verifier::external_body]
fn entry_value(entry: &kdl::KdlEntry) -> (r: KdlScalar)
    ensures
        r.model() == kdl_entry_value(*entry),
{
    match entry.value() {
        kdl::KdlValue::String(s) => KdlScalar::String(s.clone()),
        kdl::KdlValue::RawString(s) => KdlScalar::RawString(s.clone()),
        kdl::KdlValue::Base10(n) => KdlScalar::Base10(*n),
        kdl::KdlValue::Bool(b) => KdlScalar::Bool(*b),
        kdl::KdlValue::Base2(_) => KdlScalar::Other,
        kdl::KdlValue::Base8(_) => KdlScalar::Other,
        kdl::KdlValue::Base16(_) => KdlScalar::Other,
        kdl::KdlValue::Base10Float(_) => KdlScalar::Other,
        kdl::KdlValue::Null => KdlScalar::Other,
    }
}

/// The `Display` text of a `kdl` parse error.
#[verifier::external_body]
fn kdl_error_text(err: &kdl::KdlError) -> (r: String)
    ensures
        r@ == kdl_error_message(*err),
{
    format!("{}", err)
}

/// An entry value as the configuration reads it.
#[derive(Debug)]
pub enum KdlScalar {
    String(String),
    RawString(String),
    Base10(i64),
    Bool(bool),
    /// Numbers in other bases, floats and null.
    Other,
}

/// The model of an entry value.
pub enum KdlScalarV {
    String(Seq<char>),
    RawString(Seq<char>),
    Base10(i64),
    Bool(bool),
    Other,
}

impl KdlScalar {
    pub open spec fn model(&self) -> KdlScalarV {
        match self {
            KdlScalar::String(s) => KdlScalarV::String(s@),
            KdlScalar::RawString(s) => KdlScalarV::RawString(s@),
            KdlScalar::Base10(n) => KdlScalarV::Base10(*n),
            KdlScalar::Bool(b) => KdlScalarV::Bool(*b),
            KdlScalar::Other => KdlScalarV::Other,
        }
    }
}

/// An entry of a node in the plain tree.
#[derive(Debug)]
pub struct KdlTreeEntry {
    pub name: Option<String>,
    pub value: KdlScalar,
}

/// A node of the plain tree.
#[derive(Debug)]
pub struct KdlTreeNode {
    pub name: String,
    pub entries: Vec<KdlTreeEntry>,
    pub children: Option<KdlTree>,
}

/// A KDL document as a plain tree of nodes.
#[derive(Debug)]
pub struct KdlTree {
    pub nodes: Vec<KdlTreeNode>,
}

/// The plain entry holds what the parsed entry holds.
pub open spec fn entry_matches(t: KdlTreeEntry, e: kdl::KdlEntry) -> bool {
    &&& t.value.model() == kdl_entry_value(e)
    &&& match t.name {
        Some(n) => kdl_entry_name(e) == Some(n@),
        None => kdl_entry_name(e) is None,
    }
}

/// The plain tree holds the parsed document's nodes down to `depth` levels of
/// child blocks below them.
pub open spec fn tree_matches(t: KdlTree, d: kdl::KdlDocument, depth: nat) -> bool
    decreases depth, 1nat,
{
    &&& t.nodes@.len() == kdl_doc_nodes(d).len()
    &&& forall|i: int| 0 <= i < t.nodes@.len() ==> node_matches(#[trigger] t.nodes@[i], kdl_doc_nodes(d)[i], depth)
}

pub open spec fn node_matches(t: KdlTreeNode, n: kdl::KdlNode, depth: nat) -> bool
    decreases depth, 0nat,
{
    &&& t.name@ == kdl_node_name(n)
    &&& t.entries@.len() == kdl_node_entries(n).len()
    &&& forall|j: int| 0 <= j < t.entries@.len() ==> entry_matches(#[trigger] t.entries@[j], kdl_node_entries(n)[j])
    &&& if depth == 0 {
        t.children is None
    } else {
        match kdl_node_children(n) {
            Some(c) => t.children is Some && tree_matches(t.children->0, c, (depth - 1) as nat),
            None => t.children is None,
        }
    }
}

fn copy_entry(e: &kdl::KdlEntry) -> (r: KdlTreeEntry)
    ensures
        entry_matches(r, *e),
{
    KdlTreeEntry { name: entry_name(e), value: entry_value(e) }
}

fn copy_node(n: &kdl::KdlNode, depth: usize) -> (r: KdlTreeNode)
    ensures
        node_matches(r, *n, depth as nat),
    decreases depth, 0nat,
{
    let name = node_name(n);
    let es = node_entries(n);
    let mut entries: Vec<KdlTreeEntry> = Vec::new();
    let mut j: usize = 0;
    while j < es.len()
        invariant
            j <= es.len(),
            es@ == kdl_node_entries(*n),
            entries@.len() == j,
            forall|x: int| 0 <= x < j ==> entry_matches(#[trigger] entries@[x], es@[x]),
        decreases es.len() - j,
    {
        entries.push(copy_entry(&es[j]));
        j = j + 1;
    }
    let children = if depth == 0 {
        None
    } else {
        match node_children(n) {
            Some(c) => Some(copy_tree(c, depth - 1)),
            None => None,
        }
    };
    KdlTreeNode { name, entries, children }
}

/// Copies a parsed document into a plain tree, down to `depth` levels of child blocks.
pub fn copy_tree(d: &kdl::KdlDocument, depth: usize) -> (r: KdlTree)
    ensures
        tree_matches(r, *d, depth as nat),
    decreases depth, 1nat,
{
    let ns = doc_nodes(d);
    let mut nodes: Vec<KdlTreeNode> = Vec::new();
    let mut i: usize = 0;
    while i < ns.len()
        invariant
            i <= ns.len(),
            ns@ == kdl_doc_nodes(*d),
            nodes@.len() == i,
            forall|x: int| 0 <= x < i ==> node_matches(#[trigger] nodes@[x], ns@[x], depth as nat),
        decreases ns.len() - i,
    {
        nodes.push(copy_node(&ns[i], depth));
        i = i + 1;
    }
    KdlTree { nodes }
}

/// Why the `sysconfig` section could not be read.
#[derive(Debug)]
pub enum KdlParseError {
    /// The text is not valid KDL; carries the parser's message.
    Kdl(String),
    /// The document has no `sysconfig` node.
    MissingSysconfig,
    /// The configuration could not be read; carries the reason.
    InvalidStructure(String),
    /// A value has the wrong type.
    InvalidValueType { field: String, expected: String },
}

/// The model of a parse error.
pub enum KdlErrV {
    Kdl(Seq<char>),
    MissingSysconfig,
    InvalidStructure(Seq<char>),
    InvalidValueType(Seq<char>, Seq<char>),
}

impl KdlParseError {
    pub open spec fn model(&self) -> KdlErrV {
        match self {
            KdlParseError::Kdl(m) => KdlErrV::Kdl(m@),
            KdlParseError::MissingSysconfig => KdlErrV::MissingSysconfig,
            KdlParseError::InvalidStructure(m) => KdlErrV::InvalidStructure(m@),
            KdlParseError::InvalidValueType { field, expected } => KdlErrV::InvalidValueType(field@, expected@),
        }
    }

    /// The error's message text.
    pub fn to_message(&self) -> (r: String)
        ensures
            r@ == kdl_err_text(self.model()),
    {
        match self {
            KdlParseError::Kdl(m) => message("KDL parsing error: ", &chars_of(m.as_str())),
            KdlParseError::MissingSysconfig => message("Missing sysconfig node", &Vec::new()),
            KdlParseError::InvalidStructure(m) => message(
                "Invalid configuration structure: ",
                &chars_of(m.as_str()),
            ),
            KdlParseError::InvalidValueType { field, expected } => {
                let mut t = chars_of(field.as_str());
                append_chars(&mut t, &chars_of(": expected "));
                append_chars(&mut t, &chars_of(expected.as_str()));
                message("Invalid value type for ", &t)
            },
        }
    }
}

/// The message text of a parse error.
pub open spec fn kdl_err_text(e: KdlErrV) -> Seq<char> {
    match e {
        KdlErrV::Kdl(m) => "KDL parsing error: "@ + m,
        KdlErrV::MissingSysconfig => "Missing sysconfig node"@ + Seq::<char>::empty(),
        KdlErrV::InvalidStructure(m) => "Invalid configuration structure: "@ + m,
        KdlErrV::InvalidValueType(f, x) => "Invalid value type for "@ + (f + ": expected "@ + x),
    }
}

/// Parsed system configuration from KDL.
#[derive(Debug)]
pub struct KdlSysConfig {
    pub hostname: Option<String>,
    pub nameservers: Vec<String>,
    pub interfaces: Vec<KdlInterface>,
}

/// An interface of the configuration.
#[derive(Debug)]
pub struct KdlInterface {
    pub name: String,
    pub selector: Option<String>,
    pub addresses: Vec<KdlAddress>,
}

/// An address of an interface.
#[derive(Debug)]
pub struct KdlAddress {
    pub name: String,
    pub kind: String,
    pub address: Option<String>,
}

pub struct KdlAddressV {
    pub name: Seq<char>,
    pub kind: Seq<char>,
    pub address: Option<Seq<char>>,
}

pub struct KdlInterfaceV {
    pub name: Seq<char>,
    pub selector: Option<Seq<char>>,
    pub addresses: Seq<KdlAddressV>,
}

pub struct KdlSysConfigV {
    pub hostname: Option<Seq<char>>,
    pub nameservers: Seq<Seq<char>>,
    pub interfaces: Seq<KdlInterfaceV>,
}

pub open spec fn opt_view(o: Option<String>) -> Option<Seq<char>> {
    match o {
        Some(s) => Some(s@),
        None => None,
    }
}

pub open spec fn strings_view(v: Seq<String>) -> Seq<Seq<char>> {
    Seq::new(v.len(), |i: int| v[i]@)
}

impl KdlAddress {
    pub open spec fn model(&self) -> KdlAddressV {
        KdlAddressV { name: self.name@, kind: self.kind@, address: opt_view(self.address) }
    }
}

pub open spec fn addresses_model(v: Seq<KdlAddress>) -> Seq<KdlAddressV> {
    Seq::new(v.len(), |i: int| v[i].model())
}

impl KdlInterface {
    pub open spec fn model(&self) -> KdlInterfaceV {
        KdlInterfaceV {
            name: self.name@,
            selector: opt_view(self.selector),
            addresses: addresses_model(self.addresses@),
        }
    }
}

pub open spec fn interfaces_model(v: Seq<KdlInterface>) -> Seq<KdlInterfaceV> {
    Seq::new(v.len(), |i: int| v[i].model())
}

impl KdlSysConfig {
    pub open spec fn model(&self) -> KdlSysConfigV {
        KdlSysConfigV {
            hostname: opt_view(self.hostname),
            nameservers: strings_view(self.nameservers@),
            interfaces: interfaces_model(self.interfaces@),
        }
    }
}

/// Decimal text of a signed number.
pub open spec fn int_text(n: i64) -> Seq<char> {
    if n < 0 {
        seq!['-'] + dec_digits((-(n as int)) as nat)
    } else {
        dec_digits(n as nat)
    }
}

/// The text of a value, for strings, decimal numbers and booleans.
pub open spec fn value_text(v: KdlScalarV) -> Option<Seq<char>> {
    match v {
        KdlScalarV::String(s) => Some(s),
        KdlScalarV::RawString(s) => Some(s),
        KdlScalarV::Base10(n) => Some(int_text(n)),
        KdlScalarV::Bool(b) => Some(if b { "true"@ } else { "false"@ }),
        KdlScalarV::Other => None,
    }
}

/// The node's first argument as text, which must come first and be a string-like value.
pub open spec fn string_arg(n: KdlTreeNode, field: Seq<char>) -> Result<Seq<char>, KdlErrV> {
    if n.entries@.len() > 0 && n.entries@[0].name is None && value_text(n.entries@[0].value.model()) is Some {
        Ok(value_text(n.entries@[0].value.model())->Some_0)
    } else {
        Err(KdlErrV::InvalidValueType(field, "string argument"@))
    }
}

pub open spec fn entry_named(e: KdlTreeEntry, key: Seq<char>) -> bool {
    e.name matches Some(n) && n@ == key
}

/// Index of the first property entry called `key`.
pub open spec fn first_named(es: Seq<KdlTreeEntry>, key: Seq<char>) -> Option<int>
    decreases es.len(),
{
    if es.len() == 0 {
        None
    } else {
        match first_named(es.drop_last(), key) {
            Some(i) => Some(i),
            None => if entry_named(es.last(), key) {
                Some(es.len() - 1)
            } else {
                None
            },
        }
    }
}

/// Index of the first argument entry (one without a name).
pub open spec fn first_unnamed(es: Seq<KdlTreeEntry>) -> Option<int>
    decreases es.len(),
{
    if es.len() == 0 {
        None
    } else {
        match first_unnamed(es.drop_last()) {
            Some(i) => Some(i),
            None => if es.last().name is None {
                Some(es.len() - 1)
            } else {
                None
            },
        }
    }
}

/// The `name` and `kind` properties of an address node, the last of each kind winning.
pub open spec fn address_props(es: Seq<KdlTreeEntry>) -> Result<(Seq<char>, Seq<char>), KdlErrV>
    decreases es.len(),
{
    if es.len() == 0 {
        Ok((Seq::empty(), Seq::empty()))
    } else {
        match address_props(es.drop_last()) {
            Err(e) => Err(e),
            Ok((name, kind)) => {
                let e = es.last();
                if entry_named(e, "name"@) {
                    match value_text(e.value.model()) {
                        Some(t) => Ok((t, kind)),
                        None => Err(KdlErrV::InvalidValueType("address.name"@, "string"@)),
                    }
                } else if entry_named(e, "kind"@) {
                    match value_text(e.value.model()) {
                        Some(t) => Ok((name, t)),
                        None => Err(KdlErrV::InvalidValueType("address.kind"@, "string"@)),
                    }
                } else {
                    Ok((name, kind))
                }
            },
        }
    }
}

/// The address an address node describes.
pub open spec fn parse_address(n: KdlTreeNode) -> Result<KdlAddressV, KdlErrV> {
    match address_props(n.entries@) {
        Err(e) => Err(e),
        Ok((name, kind)) => Ok(KdlAddressV {
            name,
            kind,
            address: match first_unnamed(n.entries@) {
                Some(i) => value_text(n.entries@[i].value.model()),
                None => None,
            },
        }),
    }
}

/// The addresses described by the `address` nodes among `ch`, in order.
pub open spec fn addresses_of(ch: Seq<KdlTreeNode>) -> Result<Seq<KdlAddressV>, KdlErrV>
    decreases ch.len(),
{
    if ch.len() == 0 {
        Ok(Seq::empty())
    } else {
        match addresses_of(ch.drop_last()) {
            Err(e) => Err(e),
            Ok(a) => if ch.last().name@ == "address"@ {
                match parse_address(ch.last()) {
                    Ok(x) => Ok(a.push(x)),
                    Err(e) => Err(e),
                }
            } else {
                Ok(a)
            },
        }
    }
}

/// The interface an interface node describes.
pub open spec fn parse_interface(n: KdlTreeNode) -> Result<KdlInterfaceV, KdlErrV> {
    match string_arg(n, "interface"@) {
        Err(e) => Err(e),
        Ok(name) => {
            let selector = match first_named(n.entries@, "selector"@) {
                Some(i) => value_text(n.entries@[i].value.model()),
                None => None,
            };
            match n.children {
                None => Ok(KdlInterfaceV { name, selector, addresses: Seq::empty() }),
                Some(c) => match addresses_of(c.nodes@) {
                    Err(e) => Err(e),
                    Ok(a) => Ok(KdlInterfaceV { name, selector, addresses: a }),
                },
            }
        },
    }
}

pub open spec fn empty_config() -> KdlSysConfigV {
    KdlSysConfigV { hostname: None, nameservers: Seq::empty(), interfaces: Seq::empty() }
}

/// The configuration the children of a `sysconfig` node describe: the last
/// `hostname` wins, `nameserver` and `interface` nodes accumulate in order, and
/// other nodes are ignored.
pub open spec fn sysconfig_of(ch: Seq<KdlTreeNode>) -> Result<KdlSysConfigV, KdlErrV>
    decreases ch.len(),
{
    if ch.len() == 0 {
        Ok(empty_config())
    } else {
        match sysconfig_of(ch.drop_last()) {
            Err(e) => Err(e),
            Ok(c) => {
                let n = ch.last();
                if n.name@ == "hostname"@ {
                    match string_arg(n, "hostname"@) {
                        Ok(h) => Ok(KdlSysConfigV { hostname: Some(h), ..c }),
                        Err(e) => Err(e),
                    }
                } else if n.name@ == "nameserver"@ {
                    match string_arg(n, "nameserver"@) {
                        Ok(ns) => Ok(KdlSysConfigV { nameservers: c.nameservers.push(ns), ..c }),
                        Err(e) => Err(e),
                    }
                } else if n.name@ == "interface"@ {
                    match parse_interface(n) {
                        Ok(i) => Ok(KdlSysConfigV { interfaces: c.interfaces.push(i), ..c }),
                        Err(e) => Err(e),
                    }
                } else {
                    Ok(c)
                }
            },
        }
    }
}

/// Index of the first node called `sysconfig`.
pub open spec fn first_sysconfig(nodes: Seq<KdlTreeNode>) -> Option<int>
    decreases nodes.len(),
{
    if nodes.len() == 0 {
        None
    } else {
        match first_sysconfig(nodes.drop_last()) {
            Some(i) => Some(i),
            None => if nodes.last().name@ == "sysconfig"@ {
                Some(nodes.len() - 1)
            } else {
                None
            },
        }
    }
}

/// The configuration a document describes: that of its first `sysconfig` node.
pub open spec fn config_of_tree(t: KdlTree) -> Result<KdlSysConfigV, KdlErrV> {
    match first_sysconfig(t.nodes@) {
        None => Err(KdlErrV::MissingSysconfig),
        Some(i) => match t.nodes@[i].children {
            None => Ok(empty_config()),
            Some(c) => sysconfig_of(c.nodes@),
        },
    }
}

pub open spec fn result_model(r: Result<KdlSysConfig, KdlParseError>) -> Result<KdlSysConfigV, KdlErrV> {
    match r {
        Ok(c) => Ok(c.model()),
        Err(e) => Err(e.model()),
    }
}

fn lit(s: &str) -> (r: Vec<char>)
    ensures
        r@ == s@,
{
    chars_of(s)
}

fn name_is(s: &String, l: &str) -> (r: bool)
    ensures
        r == (s@ == l@),
{
    chars_eq(&chars_of(s.as_str()), &lit(l))
}

fn copy_string(s: &String) -> (r: String)
    ensures
        r@ == s@,
{
    s.clone()
}

fn i64_text(n: i64) -> (r: Vec<char>)
    ensures
        r@ == int_text(n),
{
    if n < 0 {
        let mag: u64 = if n == i64::MIN {
            9223372036854775808u64
        } else {
            (-n) as u64
        };
        let mut r = Vec::new();
        r.push('-');
        let d = u64_to_dec(mag);
        append_chars(&mut r, &d);
        assert(r@ =~= int_text(n));
        r
    } else {
        u64_to_dec(n as u64)
    }
}

impl KdlSysConfig {
    /// The text of a value, for strings, decimal numbers and booleans.
    fn value_to_string(v: &KdlScalar) -> (r: Option<String>)
        ensures
            opt_view(r) == value_text(v.model()),
    {
        match v {
            KdlScalar::String(s) => Some(copy_string(s)),
            KdlScalar::RawString(s) => Some(copy_string(s)),
            KdlScalar::Base10(n) => Some(string_from_chars(&i64_text(*n))),
            KdlScalar::Bool(b) => {
                if *b {
                    Some(string_from_chars(&lit("true")))
                } else {
                    Some(string_from_chars(&lit("false")))
                }
            },
            KdlScalar::Other => None,
        }
    }

    /// The node's first argument as text.
    fn extract_string_arg(node: &KdlTreeNode, field_name: &str) -> (r: Result<String, KdlParseError>)
        ensures
            match string_arg(*node, field_name@) {
                Ok(s) => r is Ok && r->Ok_0@ == s,
                Err(e) => r is Err && r->Err_0.model() == e,
            },
    {
        if node.entries.len() > 0 && node.entries[0].name.is_none() {
            match Self::value_to_string(&node.entries[0].value) {
                Some(s) => return Ok(s),
                None => {},
            }
        }
        Err(KdlParseError::InvalidValueType {
            field: string_from_chars(&lit(field_name)),
            expected: string_from_chars(&lit("string argument")),
        })
    }

    /// Parses an `address` node.
    fn parse_address_node(node: &KdlTreeNode) -> (r: Result<KdlAddress, KdlParseError>)
        ensures
            match parse_address(*node) {
                Ok(a) => r is Ok && r->Ok_0.model() == a,
                Err(e) => r is Err && r->Err_0.model() == e,
            },
    {
        let es = &node.entries;
        let mut name = String::new();
        let mut kind = String::new();
        let mut i: usize = 0;
        while i < es.len()
            invariant
                i <= es.len(),
                es == node.entries,
                address_props(es@.subrange(0, i as int)) == Ok::<(Seq<char>, Seq<char>), KdlErrV>((name@, kind@)),
            decreases es.len() - i,
        {
            proof {
                assert(es@.subrange(0, i as int + 1).drop_last() =~= es@.subrange(0, i as int));
            }
            match &es[i].name {
                Some(n) => {
                    if name_is(n, "name") {
                        match Self::value_to_string(&es[i].value) {
                            Some(t) => {
                                name = t;
                            },
                            None => {
                                proof {
                                    lemma_props_error_stays(es@, i as int + 1);
                                }
                                return Err(KdlParseError::InvalidValueType {
                                    field: string_from_chars(&lit("address.name")),
                                    expected: string_from_chars(&lit("string")),
                                });
                            },
                        }
                    } else if name_is(n, "kind") {
                        match Self::value_to_string(&es[i].value) {
                            Some(t) => {
                                kind = t;
                            },
                            None => {
                                proof {
                                    lemma_props_error_stays(es@, i as int + 1);
                                }
                                return Err(KdlParseError::InvalidValueType {
                                    field: string_from_chars(&lit("address.kind")),
                                    expected: string_from_chars(&lit("string")),
                                });
                            },
                        }
                    }
                },
                None => {},
            }
            i = i + 1;
        }
        proof {
            assert(es@.subrange(0, es.len() as int) =~= es@);
        }
        let address = match first_unnamed_index(es) {
            Some(j) => Self::value_to_string(&es[j].value),
            None => None,
        };
        Ok(KdlAddress { name, kind, address })
    }
}

fn first_unnamed_index(es: &Vec<KdlTreeEntry>) -> (r: Option<usize>)
    ensures
        r is None <==> first_unnamed(es@) is None,
        r matches Some(j) ==> first_unnamed(es@) == Some(j as int) && j < es.len(),
{
    let mut j: usize = 0;
    while j < es.len()
        invariant
            j <= es.len(),
            first_unnamed(es@.subrange(0, j as int)) is None,
        decreases es.len() - j,
    {
        proof {
            assert(es@.subrange(0, j as int + 1).drop_last() =~= es@.subrange(0, j as int));
        }
        if es[j].name.is_none() {
            proof {
                lemma_first_unnamed_at(es@, j as int);
            }
            return Some(j);
        }
        j = j + 1;
    }
    assert(es@.subrange(0, es.len() as int) =~= es@);
    None
}

proof fn lemma_props_error_stays(es: Seq<KdlTreeEntry>, k: int)
    requires
        0 < k <= es.len(),
        address_props(es.subrange(0, k)) is Err,
    ensures
        address_props(es) == address_props(es.subrange(0, k)),
    decreases es.len() - k,
{
    if k < es.len() {
        assert(es.subrange(0, k + 1).drop_last() =~= es.subrange(0, k));
        lemma_props_error_stays(es, k + 1);
    } else {
        assert(es.subrange(0, k) =~= es);
    }
}

proof fn lemma_first_unnamed_at(es: Seq<KdlTreeEntry>, j: int)
    requires
        0 <= j < es.len(),
        first_unnamed(es.subrange(0, j)) is None,
        es[j].name is None,
    ensures
        first_unnamed(es) == Some(j),
    decreases es.len(),
{
    if j < es.len() - 1 {
        assert(es.drop_last().subrange(0, j) =~= es.subrange(0, j));
        assert(es.drop_last()[j] == es[j]);
        lemma_first_unnamed_at(es.drop_last(), j);
    } else {
        assert(es.drop_last() =~= es.subrange(0, j));
    }
}

fn first_named_index(es: &Vec<KdlTreeEntry>, key: &str) -> (r: Option<usize>)
    ensures
        r is None <==> first_named(es@, key@) is None,
        r matches Some(j) ==> first_named(es@, key@) == Some(j as int) && j < es.len(),
{
    let mut j: usize = 0;
    while j < es.len()
        invariant
            j <= es.len(),
            first_named(es@.subrange(0, j as int), key@) is None,
        decreases es.len() - j,
    {
        proof {
            assert(es@.subrange(0, j as int + 1).drop_last() =~= es@.subrange(0, j as int));
        }
        let hit = match &es[j].name {
            Some(n) => name_is(n, key),
            None => false,
        };
        if hit {
            proof {
                lemma_first_named_at(es@, j as int, key@);
            }
            return Some(j);
        }
        j = j + 1;
    }
    assert(es@.subrange(0, es.len() as int) =~= es@);
    None
}

proof fn lemma_first_named_at(es: Seq<KdlTreeEntry>, j: int, key: Seq<char>)
    requires
        0 <= j < es.len(),
        first_named(es.subrange(0, j), key) is None,
        entry_named(es[j], key),
    ensures
        first_named(es, key) == Some(j),
    decreases es.len(),
{
    if j < es.len() - 1 {
        assert(es.drop_last().subrange(0, j) =~= es.subrange(0, j));
        assert(es.drop_last()[j] == es[j]);
        lemma_first_named_at(es.drop_last(), j, key);
    } else {
        assert(es.drop_last() =~= es.subrange(0, j));
    }
}

proof fn lemma_addresses_error_stays(ch: Seq<KdlTreeNode>, k: int)
    requires
        0 < k <= ch.len(),
        addresses_of(ch.subrange(0, k)) is Err,
    ensures
        addresses_of(ch) == addresses_of(ch.subrange(0, k)),
    decreases ch.len() - k,
{
    if k < ch.len() {
        assert(ch.subrange(0, k + 1).drop_last() =~= ch.subrange(0, k));
        lemma_addresses_error_stays(ch, k + 1);
    } else {
        assert(ch.subrange(0, k) =~= ch);
    }
}

proof fn lemma_sysconfig_error_stays(ch: Seq<KdlTreeNode>, k: int)
    requires
        0 < k <= ch.len(),
        sysconfig_of(ch.subrange(0, k)) is Err,
    ensures
        sysconfig_of(ch) == sysconfig_of(ch.subrange(0, k)),
    decreases ch.len() - k,
{
    if k < ch.len() {
        assert(ch.subrange(0, k + 1).drop_last() =~= ch.subrange(0, k));
        lemma_sysconfig_error_stays(ch, k + 1);
    } else {
        assert(ch.subrange(0, k) =~= ch);
    }
}

proof fn lemma_first_sysconfig_at(ns: Seq<KdlTreeNode>, j: int)
    requires
        0 <= j < ns.len(),
        first_sysconfig(ns.subrange(0, j)) is None,
        ns[j].name@ == "sysconfig"@,
    ensures
        first_sysconfig(ns) == Some(j),
    decreases ns.len(),
{
    if j < ns.len() - 1 {
        assert(ns.drop_last().subrange(0, j) =~= ns.subrange(0, j));
        assert(ns.drop_last()[j] == ns[j]);
        lemma_first_sysconfig_at(ns.drop_last(), j);
    } else {
        assert(ns.drop_last() =~= ns.subrange(0, j));
    }
}

impl KdlSysConfig {
    /// Parses an `interface` node: its name argument, optional `selector`
    /// property and `address` children.
    #[verifier::loop_isolation(false)]
    fn parse_interface_node(node: &KdlTreeNode) -> (r: Result<KdlInterface, KdlParseError>)
        ensures
            match parse_interface(*node) {
                Ok(a) => r is Ok && r->Ok_0.model() == a,
                Err(e) => r is Err && r->Err_0.model() == e,
            },
    {
        let name = match Self::extract_string_arg(node, "interface") {
            Ok(n) => n,
            Err(e) => return Err(e),
        };
        let selector = match first_named_index(&node.entries, "selector") {
            Some(j) => Self::value_to_string(&node.entries[j].value),
            None => None,
        };
        let mut addresses: Vec<KdlAddress> = Vec::new();
        match &node.children {
            None => {
                assert(addresses_model(addresses@) =~= Seq::<KdlAddressV>::empty());
            },
            Some(children) => {
                let ch = &children.nodes;
                let mut i: usize = 0;
                assert(addresses_model(addresses@) =~= Seq::<KdlAddressV>::empty());
                while i < ch.len()
                    invariant
                        i <= ch.len(),
                        addresses_of(ch@.subrange(0, i as int)) == Ok::<Seq<KdlAddressV>, KdlErrV>(addresses_model(addresses@)),
                    decreases ch.len() - i,
                {
                    proof {
                        assert(ch@.subrange(0, i as int + 1).drop_last() =~= ch@.subrange(0, i as int));
                        assert(ch@.subrange(0, i as int + 1).last() == ch@[i as int]);
                    }
                    if name_is(&ch[i].name, "address") {
                        match Self::parse_address_node(&ch[i]) {
                            Ok(a) => {
                                let ghost before = addresses_model(addresses@);
                                addresses.push(a);
                                assert(addresses_model(addresses@) =~= before.push(addresses@.last().model()));
                            },
                            Err(e) => {
                                proof {
                                    lemma_addresses_error_stays(ch@, i as int + 1);
                                }
                                return Err(e);
                            },
                        }
                    }
                    i = i + 1;
                }
                assert(ch@.subrange(0, ch.len() as int) =~= ch@);
            },
        }
        Ok(KdlInterface { name, selector, addresses })
    }

    /// Reads the children of a `sysconfig` node.
    #[verifier::loop_isolation(false)]
    fn parse_sysconfig_node(node: &KdlTreeNode) -> (r: Result<KdlSysConfig, KdlParseError>)
        ensures
            match (match node.children {
                None => Ok(empty_config()),
                Some(c) => sysconfig_of(c.nodes@),
            }) {
                Ok(a) => r is Ok && r->Ok_0.model() == a,
                Err(e) => r is Err && r->Err_0.model() == e,
            },
    {
        let mut config = KdlSysConfig { hostname: None, nameservers: Vec::new(), interfaces: Vec::new() };
        assert(strings_view(config.nameservers@) =~= Seq::<Seq<char>>::empty());
        assert(interfaces_model(config.interfaces@) =~= Seq::<KdlInterfaceV>::empty());
        assert(config.model() == empty_config());
        match &node.children {
            None => {},
            Some(children) => {
                let ch = &children.nodes;
                let mut i: usize = 0;
                while i < ch.len()
                    invariant
                        i <= ch.len(),
                        sysconfig_of(ch@.subrange(0, i as int)) == Ok::<KdlSysConfigV, KdlErrV>(config.model()),
                    decreases ch.len() - i,
                {
                    proof {
                        assert(ch@.subrange(0, i as int + 1).drop_last() =~= ch@.subrange(0, i as int));
                        assert(ch@.subrange(0, i as int + 1).last() == ch@[i as int]);
                    }
                    let child = &ch[i];
                    let ghost before = config.model();
                    if name_is(&child.name, "hostname") {
                        match Self::extract_string_arg(child, "hostname") {
                            Ok(h) => {
                                let ghost hv = h@;
                                config.hostname = Some(h);
                                assert(config.model() == KdlSysConfigV { hostname: Some(hv), ..before });
                            },
                            Err(e) => {
                                proof {
                                    lemma_sysconfig_error_stays(ch@, i as int + 1);
                                }
                                return Err(e);
                            },
                        }
                    } else if name_is(&child.name, "nameserver") {
                        match Self::extract_string_arg(child, "nameserver") {
                            Ok(ns) => {
                                let ghost nv = ns@;
                                config.nameservers.push(ns);
                                assert(strings_view(config.nameservers@) =~= before.nameservers.push(nv));
                                assert(config.model() == KdlSysConfigV { nameservers: before.nameservers.push(nv), ..before });
                            },
                            Err(e) => {
                                proof {
                                    lemma_sysconfig_error_stays(ch@, i as int + 1);
                                }
                                return Err(e);
                            },
                        }
                    } else if name_is(&child.name, "interface") {
                        match Self::parse_interface_node(child) {
                            Ok(iface) => {
                                let ghost iv = iface.model();
                                config.interfaces.push(iface);
                                assert(interfaces_model(config.interfaces@) =~= before.interfaces.push(iv));
                                assert(config.model() == KdlSysConfigV { interfaces: before.interfaces.push(iv), ..before });
                            },
                            Err(e) => {
                                proof {
                                    lemma_sysconfig_error_stays(ch@, i as int + 1);
                                }
                                return Err(e);
                            },
                        }
                    }
                    i = i + 1;
                }
                assert(ch@.subrange(0, ch.len() as int) =~= ch@);
            },
        }
        Ok(config)
    }

    /// Reads the configuration from a document: that of its first `sysconfig` node.
    #[verifier::loop_isolation(false)]
    pub fn from_kdl_document(doc: &KdlTree) -> (r: Result<KdlSysConfig, KdlParseError>)
        ensures
            result_model(r) == config_of_tree(*doc),
    {
        let ns = &doc.nodes;
        let mut i: usize = 0;
        while i < ns.len()
            invariant
                i <= ns.len(),
                first_sysconfig(ns@.subrange(0, i as int)) is None,
            decreases ns.len() - i,
        {
            proof {
                assert(ns@.subrange(0, i as int + 1).drop_last() =~= ns@.subrange(0, i as int));
            }
            if name_is(&ns[i].name, "sysconfig") {
                proof {
                    lemma_first_sysconfig_at(ns@, i as int);
                }
                return Self::parse_sysconfig_node(&ns[i]);
            }
            i = i + 1;
        }
        assert(ns@.subrange(0, ns.len() as int) =~= ns@);
        Err(KdlParseError::MissingSysconfig)
    }

    /// Parses a KDL text and reads the configuration from its first `sysconfig` node.
    pub fn from_kdl_str(content: &str) -> (r: Result<KdlSysConfig, KdlParseError>)
        ensures
            kdl_parse(content@) is Err ==> r is Err && r->Err_0.model() == KdlErrV::Kdl(
                kdl_error_message(kdl_parse(content@)->Err_0)),
            kdl_parse(content@) matches Ok(d) ==> exists|t: KdlTree|
                tree_matches(t, d, 2) && #[trigger] config_of_tree(t) == result_model(r),
    {
        match parse_kdl(content) {
            Err(e) => Err(KdlParseError::Kdl(kdl_error_text(&e))),
            Ok(d) => {
                let t = copy_tree(&d, 2);
                let r = Self::from_kdl_document(&t);
                assert(tree_matches(t, d, 2) && config_of_tree(t) == result_model(r));
                r
            },
        }
    }
}

/// Parses a KDL configuration text.
pub fn parse_kdl_str(content: &str) -> (r: Result<KdlSysConfig, KdlParseError>)
    ensures
        kdl_parse(content@) is Err ==> r is Err && r->Err_0.model() == KdlErrV::Kdl(
            kdl_error_message(kdl_parse(content@)->Err_0)),
        kdl_parse(content@) matches Ok(d) ==> exists|t: KdlTree|
            tree_matches(t, d, 2) && #[trigger] config_of_tree(t) == result_model(r),
{
    KdlSysConfig::from_kdl_str(content)
}

/// The address kind a kind name selects; unknown names mean a static address.
pub open spec fn kind_from_name(k: Seq<char>) -> AddressKind {
    if k == "dhcp4"@ {
        AddressKind::Dhcp4
    } else if k == "dhcp6"@ {
        AddressKind::Dhcp6
    } else if k == "addrconf"@ {
        AddressKind::Addrconf
    } else {
        AddressKind::Static
    }
}

/// The configuration-module form of a parsed configuration.
pub open spec fn to_sysconfig_model(c: KdlSysConfigV) -> SysConfigV {
    SysConfigV {
        hostname: match c.hostname {
            Some(h) => h,
            None => Seq::empty(),
        },
        nameservers: c.nameservers,
        interfaces: Seq::new(
            c.interfaces.len(),
            |i: int|
                InterfaceV {
                    name: Some(c.interfaces[i].name),
                    selector: c.interfaces[i].selector,
                    addresses: Seq::new(
                        c.interfaces[i].addresses.len(),
                        |j: int|
                            AddressObjectV {
                                name: c.interfaces[i].addresses[j].name,
                                kind: kind_from_name(c.interfaces[i].addresses[j].kind),
                                address: c.interfaces[i].addresses[j].address,
                            },
                    ),
                },
        ),
    }
}

fn copy_opt(o: &Option<String>) -> (r: Option<String>)
    ensures
        opt_view(r) == opt_view(*o),
{
    match o {
        Some(s) => Some(s.clone()),
        None => None,
    }
}

impl KdlSysConfig {
    fn to_address(addr: &KdlAddress) -> (r: AddressObject)
        ensures
            r.model() == (AddressObjectV {
                name: addr.name@,
                kind: kind_from_name(addr.kind@),
                address: opt_view(addr.address),
            }),
    {
        let kind = if name_is(&addr.kind, "dhcp4") {
            AddressKind::Dhcp4
        } else if name_is(&addr.kind, "dhcp6") {
            AddressKind::Dhcp6
        } else if name_is(&addr.kind, "addrconf") {
            AddressKind::Addrconf
        } else {
            AddressKind::Static
        };
        AddressObject { name: addr.name.clone(), kind, address: copy_opt(&addr.address) }
    }

    fn to_interface(iface: &KdlInterface) -> (r: Interface)
        ensures
            r.model() == (InterfaceV {
                name: Some(iface.name@),
                selector: opt_view(iface.selector),
                addresses: Seq::new(
                    iface.addresses@.len(),
                    |j: int|
                        AddressObjectV {
                            name: iface.addresses@[j].name@,
                            kind: kind_from_name(iface.addresses@[j].kind@),
                            address: opt_view(iface.addresses@[j].address),
                        },
                ),
            }),
    {
        let mut addresses: Vec<AddressObject> = Vec::new();
        let mut j: usize = 0;
        while j < iface.addresses.len()
            invariant
                j <= iface.addresses.len(),
                addresses@.len() == j,
                forall|x: int| 0 <= x < j ==> (#[trigger] addresses@[x]).model() == (AddressObjectV {
                    name: iface.addresses@[x].name@,
                    kind: kind_from_name(iface.addresses@[x].kind@),
                    address: opt_view(iface.addresses@[x].address),
                }),
            decreases iface.addresses.len() - j,
        {
            addresses.push(Self::to_address(&iface.addresses[j]));
            j = j + 1;
        }
        let r = Interface { name: Some(iface.name.clone()), selector: copy_opt(&iface.selector), addresses };
        assert(r.model().addresses =~= Seq::new(
            iface.addresses@.len(),
            |j: int|
                AddressObjectV {
                    name: iface.addresses@[j].name@,
                    kind: kind_from_name(iface.addresses@[j].kind@),
                    address: opt_view(iface.addresses@[j].address),
                },
        ));
        r
    }

    /// Converts to the configuration-module form: a missing hostname becomes
    /// empty, and each address kind name selects its kind (unknown names: static).
    pub fn to_sysconfig(&self) -> (r: SysConfig)
        ensures
            r.model() == to_sysconfig_model(self.model()),
    {
        let mut config = SysConfig::default();
        match &self.hostname {
            Some(h) => {
                config.hostname = h.clone();
            },
            None => {},
        }
        let mut ns: Vec<String> = Vec::new();
        let mut i: usize = 0;
        while i < self.nameservers.len()
            invariant
                i <= self.nameservers.len(),
                ns@.len() == i,
                forall|x: int| 0 <= x < i ==> (#[trigger] ns@[x])@ == self.nameservers@[x]@,
            decreases self.nameservers.len() - i,
        {
            ns.push(self.nameservers[i].clone());
            i = i + 1;
        }
        config.nameservers = ns;
        let mut ifaces: Vec<Interface> = Vec::new();
        let mut k: usize = 0;
        while k < self.interfaces.len()
            invariant
                k <= self.interfaces.len(),
                ifaces@.len() == k,
                forall|x: int| 0 <= x < k ==> (#[trigger] ifaces@[x]).model() == to_sysconfig_model(self.model()).interfaces[x],
            decreases self.interfaces.len() - k,
        {
            let it = Self::to_interface(&self.interfaces[k]);
            proof {
                let m = self.model().interfaces[k as int];
                assert(m == self.interfaces@[k as int].model());
                assert(it.model().addresses =~= to_sysconfig_model(self.model()).interfaces[k as int].addresses);
            }
            ifaces.push(it);
            k = k + 1;
        }
        config.interfaces = ifaces;
        assert(config.model().nameservers =~= to_sysconfig_model(self.model()).nameservers);
        assert(config.model().interfaces =~= to_sysconfig_model(self.model()).interfaces);
        config
    }
}

} // verus!
