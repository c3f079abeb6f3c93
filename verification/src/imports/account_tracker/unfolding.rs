//! Unfolds a backup: a property list in which the objects of a keyed archive refer to one another.

use plist::Value;
use std::time::{SystemTime, UNIX_EPOCH};
use vstd::prelude::*;

use crate::codec::{json_string, json_text};
use crate::documents::{flag, flag_text, list, list_text, object_of, pairs};
use crate::error::{unreadable, Refusal, Result};
use crate::imports::object_text;
use crate::json::{string, string_of};
use crate::text::{cat, int_string, int_text, nat_string, nat_text, own, same, texts};

verus! {

/// A value of a property list. A real is carried as it is written in JSON.
#[derive(Debug)]
pub enum Node {
    Reference(u64),
    Dictionary(Vec<(String, Node)>),
    List(Vec<Node>),
    Flag(bool),
    /// An integer, where it fits.
    Integer(Option<i64>),
    Real(String),
    Text(String),
    /// Bytes, of which the number counts.
    Data(usize),
    /// The seconds since 1970, where the moment lies after it.
    Moment(Option<String>),
    Other,
}

/// A value of a property list, as a contract sees it.
pub enum Shown {
    Reference(u64),
    Dictionary(Seq<(Seq<char>, Shown)>),
    List(Seq<Shown>),
    Flag(bool),
    Integer(Option<i64>),
    Real(Seq<char>),
    Text(Seq<char>),
    Data(nat),
    Moment(Option<Seq<char>>),
    Other,
}

/// What a node shows.
pub open spec fn shown(n: Node) -> Shown
    decreases n,
{
    match n {
        Node::Reference(u) => Shown::Reference(u),
        Node::Dictionary(d) => Shown::Dictionary(
            Seq::new(
                d@.len(),
                |i: int|
                    if 0 <= i < d@.len() {
                        (d@[i].0@, shown(d@[i].1))
                    } else {
                        arbitrary()
                    },
            ),
        ),
        Node::List(v) => Shown::List(
            Seq::new(
                v@.len(),
                |i: int|
                    if 0 <= i < v@.len() {
                        shown(v@[i])
                    } else {
                        arbitrary()
                    },
            ),
        ),
        Node::Flag(b) => Shown::Flag(b),
        Node::Integer(i) => Shown::Integer(i),
        Node::Real(t) => Shown::Real(t@),
        Node::Text(t) => Shown::Text(t@),
        Node::Data(n) => Shown::Data(n as nat),
        Node::Moment(t) => Shown::Moment(
            match t {
                Some(s) => Some(s@),
                None => None,
            },
        ),
        Node::Other => Shown::Other,
    }
}

impl View for Node {
    type V = Shown;

    open spec fn view(&self) -> Shown {
        shown(*self)
    }
}

pub open spec fn nodes(v: Seq<Node>) -> Seq<Shown> {
    v.map_values(|n: Node| n@)
}

pub open spec fn named_nodes(v: Seq<(String, Node)>) -> Seq<(Seq<char>, Shown)> {
    v.map_values(|m: (String, Node)| (m.0@, m.1@))
}

/// What a node shows, level by level.
spec fn shows(n: Node) -> bool {
    match n {
        Node::Dictionary(d) => n@ == Shown::Dictionary(named_nodes(d@)),
        Node::List(v) => n@ == Shown::List(nodes(v@)),
        Node::Reference(u) => n@ == Shown::Reference(u),
        Node::Real(t) => n@ == Shown::Real(t@),
        Node::Text(t) => n@ == Shown::Text(t@),
        Node::Data(k) => n@ == Shown::Data(k as nat),
        _ => !(n@ is Dictionary || n@ is List || n@ is Reference || n@ is Real || n@ is Text || n@ is Data),
    }
}

proof fn lemma_shows(n: Node)
    ensures
        shows(n),
{
    match n {
        Node::List(v) => {
            assert(nodes(v@) =~= (n@)->List_0);
        },
        Node::Dictionary(d) => {
            assert(named_nodes(d@) =~= (n@)->Dictionary_0);
        },
        _ => {},
    }
}

/// The property list in some bytes, or why they cannot be read.
pub uninterp spec fn archive_in(content: Seq<u8>) -> std::result::Result<Shown, Seq<char>>;

/// A value that the `plist` crate read.
#[verifier::external_type_specification]
#[verifier::external_body]
pub struct ExValue(Value);

/// `plist::Value`, where it holds no other values: each is a node of its kind. A real, and the seconds
/// of a date, are written as `serde_json` writes them.
#[verifier::external_body]
fn leaf_of(v: &Value) -> (r: Node) {
    match v {
        Value::Uid(u) => Node::Reference(u.get()),
        Value::Boolean(b) => Node::Flag(*b),
        Value::Integer(i) => Node::Integer(i.as_signed()),
        Value::Real(x) => Node::Real(serde_json::Value::from(*x).to_string()),
        Value::String(s) => Node::Text(s.clone()),
        Value::Data(b) => Node::Data(b.len()),
        Value::Date(t) => Node::Moment(
            SystemTime::from(*t).duration_since(UNIX_EPOCH).ok().map(|s| serde_json::Value::from(s.as_secs_f64()).to_string()),
        ),
        _ => Node::Other,
    }
}

/// `plist::Value`, of which each value is a node of its kind, in its place. The values lie inside one
/// another, so they are read by the function itself: it uses the stack as deeply as the values lie,
/// which the `plist` crate does as well when it drops them.
#[verifier::external_body]
fn node_of(v: &Value) -> (r: Node) {
    match v {
        Value::Dictionary(d) => Node::Dictionary(d.iter().map(|(k, x)| (k.clone(), node_of(x))).collect()),
        Value::Array(a) => Node::List(a.iter().map(node_of).collect()),
        _ => leaf_of(v),
    }
}

/// `plist::Value::from_reader`: the property list in the bytes, value by value, or the text of the
/// error. How the bytes are read is left unsaid.
#[verifier::external_body]
fn read_archive(content: &[u8]) -> (r: std::result::Result<Node, String>)
    ensures
        match r {
            Ok(n) => archive_in(content@) == Ok::<Shown, Seq<char>>(n@),
            Err(m) => archive_in(content@) == Err::<Shown, Seq<char>>(m@),
        },
{
    Value::from_reader(std::io::Cursor::new(content)).map(|v| node_of(&v)).map_err(|e| e.to_string())
}

/// The place of the member with a name, from `i` on.
pub open spec fn member_place(d: Seq<(Seq<char>, Shown)>, name: Seq<char>, i: int) -> Option<int>
    decreases d.len() - i,
{
    if i < 0 || i >= d.len() {
        None
    } else if d[i].0 == name {
        Some(i)
    } else {
        member_place(d, name, i + 1)
    }
}

/// What a dictionary holds under a name.
pub open spec fn held(d: Seq<(Seq<char>, Shown)>, name: Seq<char>) -> Option<Shown> {
    match member_place(d, name, 0) {
        Some(i) => Some(d[i].1),
        None => None,
    }
}

fn get<'a>(d: &'a Vec<(String, Node)>, name: &str) -> (r: Option<&'a Node>)
    ensures
        match r {
            Some(n) => held(named_nodes(d@), name@) == Some(n@) && shows(*n),
            None => held(named_nodes(d@), name@) is None,
        },
{
    let mut i: usize = 0;
    while i < d.len()
        invariant
            i <= d.len(),
            member_place(named_nodes(d@), name@, 0) == member_place(named_nodes(d@), name@, i as int),
        decreases d.len() - i,
    {
        assert(named_nodes(d@)[i as int] == (d@[i as int].0@, d@[i as int].1@));
        if same(d[i].0.as_str(), name) {
            proof {
                lemma_shows(d@[i as int].1);
            }
            return Some(&d[i].1);
        }
        i = i + 1;
    }
    None
}

/// The class of an object of an archive; empty where it names none.
pub open spec fn class_of(objects: Seq<Shown>, d: Seq<(Seq<char>, Shown)>) -> Seq<char> {
    match held(d, "$class"@) {
        Some(Shown::Reference(u)) => if u < objects.len() {
            match objects[u as int] {
                Shown::Dictionary(c) => match held(c, "$classname"@) {
                    Some(Shown::Text(s)) => s,
                    _ => Seq::empty(),
                },
                _ => Seq::empty(),
            }
        } else {
            Seq::empty()
        },
        _ => Seq::empty(),
    }
}

fn class_name(objects: &Vec<Node>, d: &Vec<(String, Node)>) -> (r: String)
    ensures
        r@ == class_of(nodes(objects@), named_nodes(d@)),
{
    proof {
        reveal_strlit("");
        assert(""@ =~= Seq::<char>::empty());
    }
    let u = match get(d, "$class") {
        Some(Node::Reference(u)) => *u,
        _ => {
            return own("");
        },
    };
    if u >= objects.len() as u64 {
        return own("");
    }
    proof {
        lemma_shows(objects@[u as int]);
        assert(nodes(objects@)[u as int] == objects@[u as int]@);
    }
    match &objects[u as usize] {
        Node::Dictionary(c) => match get(c, "$classname") {
            Some(Node::Text(s)) => own(s.as_str()),
            _ => own(""),
        },
        _ => own(""),
    }
}

/// The nodes of a list; none where there is no list.
pub open spec fn listed(n: Option<Shown>) -> Seq<Shown> {
    match n {
        Some(Shown::List(v)) => v,
        _ => Seq::empty(),
    }
}

/// The classes whose objects are lists.
pub open spec fn is_list_class(c: Seq<char>) -> bool {
    c == "NSMutableArray"@ || c == "NSArray"@ || c == "NSMutableSet"@ || c == "NSSet"@ || c == "NSMutableOrderedSet"@ || c == "NSOrderedSet"@
}

/// What a member of an object becomes: a document that is a text gives a key its characters, any
/// other one as it is written.
pub open spec fn key_of(document: Seq<char>) -> Seq<char> {
    match string_of(document) {
        Some(s) => s,
        None => document,
    }
}

/// An object of an archive as JSON: references are followed, the classes of lists, dictionaries,
/// texts, dates and bytes are told apart, and any other object gives its members. What lies deeper
/// than sixty-four steps is left out.
pub open spec fn resolved(objects: Seq<Shown>, v: Shown, depth: int) -> Seq<char>
    decreases 65 - depth, 0nat,
{
    if depth > 64 {
        "null"@
    } else {
        match v {
            Shown::Reference(u) => if u < objects.len() {
                resolved(objects, objects[u as int], depth + 1)
            } else {
                "null"@
            },
            Shown::Dictionary(d) => {
                let c = class_of(objects, d);
                if is_list_class(c) {
                    let vs = listed(held(d, "NS.objects"@));
                    list_text(resolved_list(objects, vs, vs.len(), depth + 1))
                } else if c == "NSMutableDictionary"@ || c == "NSDictionary"@ {
                    let (ks, vs) = (listed(held(d, "NS.keys"@)), listed(held(d, "NS.objects"@)));
                    object_text(resolved_pairs(objects, ks, vs, shorter(ks, vs), depth + 1))
                } else if c == "NSMutableString"@ || c == "NSString"@ {
                    match held(d, "NS.string"@) {
                        Some(Shown::Text(s)) => json_text(s),
                        _ => json_text(Seq::empty()),
                    }
                } else if c == "NSDate"@ {
                    object_text(
                        seq![
                            (
                                "__date"@,
                                match held(d, "NS.time"@) {
                                    Some(Shown::Real(t)) => t,
                                    _ => "0.0"@,
                                },
                            ),
                        ],
                    )
                } else if c == "NSNull"@ {
                    "null"@
                } else if c == "NSMutableData"@ || c == "NSData"@ {
                    object_text(
                        seq![
                            (
                                "__data"@,
                                match held(d, "NS.data"@) {
                                    Some(Shown::Data(n)) => nat_text(n),
                                    _ => "0"@,
                                },
                            ),
                        ],
                    )
                } else {
                    object_text(resolved_members(objects, d, d.len(), depth + 1))
                }
            },
            Shown::List(a) => list_text(resolved_list(objects, a, a.len(), depth + 1)),
            Shown::Flag(b) => flag_text(b),
            Shown::Integer(i) => match i {
                Some(n) => int_text(n as int),
                None => "0"@,
            },
            Shown::Real(t) => t,
            Shown::Text(s) => json_text(s),
            Shown::Data(n) => object_text(seq![("__data"@, nat_text(n))]),
            Shown::Moment(t) => object_text(
                seq![
                    (
                        "__unix"@,
                        match t {
                            Some(s) => s,
                            None => "0.0"@,
                        },
                    ),
                ],
            ),
            Shown::Other => "null"@,
        }
    }
}

/// How many keys and values of a dictionary belong together.
pub open spec fn shorter(a: Seq<Shown>, b: Seq<Shown>) -> nat {
    if a.len() <= b.len() {
        a.len()
    } else {
        b.len()
    }
}

/// The first `n` nodes as JSON.
pub open spec fn resolved_list(objects: Seq<Shown>, vs: Seq<Shown>, n: nat, depth: int) -> Seq<Seq<char>>
    decreases 65 - depth, n,
{
    if n == 0 {
        Seq::empty()
    } else {
        resolved_list(objects, vs, (n - 1) as nat, depth).push(resolved(objects, vs[n - 1], depth))
    }
}

/// The first `n` keys with their values.
pub open spec fn resolved_pairs(objects: Seq<Shown>, ks: Seq<Shown>, vs: Seq<Shown>, n: nat, depth: int) -> Seq<(Seq<char>, Seq<char>)>
    decreases 65 - depth, n,
{
    if n == 0 {
        Seq::empty()
    } else {
        resolved_pairs(objects, ks, vs, (n - 1) as nat, depth).push(
            (key_of(resolved(objects, ks[n - 1], depth)), resolved(objects, vs[n - 1], depth)),
        )
    }
}

/// The first `n` members of an object but its class.
pub open spec fn resolved_members(objects: Seq<Shown>, d: Seq<(Seq<char>, Shown)>, n: nat, depth: int) -> Seq<(Seq<char>, Seq<char>)>
    decreases 65 - depth, n,
{
    if n == 0 {
        Seq::empty()
    } else if d[n - 1].0 == "$class"@ {
        resolved_members(objects, d, (n - 1) as nat, depth)
    } else {
        resolved_members(objects, d, (n - 1) as nat, depth).push((d[n - 1].0, resolved(objects, d[n - 1].1, depth)))
    }
}

fn single(name: &str, value: String) -> (r: String)
    ensures
        r@ == object_text(seq![(name@, value@)]),
{
    let v: Vec<(String, String)> = vec![(own(name), value)];
    assert(pairs(v@) =~= seq![(name@, value@)]);
    object_of(&v)
}

fn resolve_list(objects: &Vec<Node>, vs: &Vec<Node>, depth: usize) -> (r: String)
    requires
        depth <= 65,
    ensures
        r@ == list_text(resolved_list(nodes(objects@), nodes(vs@), vs@.len(), depth as int)),
    decreases 65 - depth, 2nat,
{
    let mut items: Vec<String> = Vec::new();
    let mut i: usize = 0;
    assert(texts(items@) =~= Seq::<Seq<char>>::empty());
    while i < vs.len()
        invariant
            i <= vs.len(),
            depth <= 65,
            texts(items@) == resolved_list(nodes(objects@), nodes(vs@), i as nat, depth as int),
        decreases vs.len() - i,
    {
        let ghost before = texts(items@);
        let t = resolve(objects, &vs[i], depth);
        items.push(t);
        assert(texts(items@) =~= before.push(t@));
        i = i + 1;
    }
    list(&items)
}

fn resolve_pairs(objects: &Vec<Node>, ks: &Vec<Node>, vs: &Vec<Node>, depth: usize) -> (r: String)
    requires
        depth <= 65,
    ensures
        r@ == object_text(resolved_pairs(nodes(objects@), nodes(ks@), nodes(vs@), shorter(nodes(ks@), nodes(vs@)), depth as int)),
    decreases 65 - depth, 2nat,
{
    let n = if ks.len() <= vs.len() {
        ks.len()
    } else {
        vs.len()
    };
    let mut out: Vec<(String, String)> = Vec::new();
    let mut i: usize = 0;
    assert(pairs(out@) =~= Seq::<(Seq<char>, Seq<char>)>::empty());
    while i < n
        invariant
            i <= n,
            n <= ks.len(),
            n <= vs.len(),
            depth <= 65,
            pairs(out@) == resolved_pairs(nodes(objects@), nodes(ks@), nodes(vs@), i as nat, depth as int),
        decreases n - i,
    {
        let ghost before = pairs(out@);
        let document = resolve(objects, &ks[i], depth);
        let key = match string(document.as_str()) {
            Some(s) => s,
            None => document,
        };
        let value = resolve(objects, &vs[i], depth);
        out.push((key, value));
        assert(pairs(out@) =~= before.push((key@, value@)));
        i = i + 1;
    }
    object_of(&out)
}

fn resolve_members(objects: &Vec<Node>, d: &Vec<(String, Node)>, depth: usize) -> (r: String)
    requires
        depth <= 65,
    ensures
        r@ == object_text(resolved_members(nodes(objects@), named_nodes(d@), d@.len(), depth as int)),
    decreases 65 - depth, 2nat,
{
    let mut out: Vec<(String, String)> = Vec::new();
    let mut i: usize = 0;
    assert(pairs(out@) =~= Seq::<(Seq<char>, Seq<char>)>::empty());
    while i < d.len()
        invariant
            i <= d.len(),
            depth <= 65,
            pairs(out@) == resolved_members(nodes(objects@), named_nodes(d@), i as nat, depth as int),
        decreases d.len() - i,
    {
        let name = d[i].0.as_str();
        if !same(name, "$class") {
            let ghost before = pairs(out@);
            let key = own(name);
            let value = resolve(objects, &d[i].1, depth);
            out.push((key, value));
            assert(pairs(out@) =~= before.push((key@, value@)));
        }
        i = i + 1;
    }
    object_of(&out)
}

/// The list under a name of a dictionary.
fn list_in<'a>(d: &'a Vec<(String, Node)>, name: &str) -> (r: Option<&'a Vec<Node>>)
    ensures
        match r {
            Some(v) => listed(held(named_nodes(d@), name@)) == nodes(v@),
            None => listed(held(named_nodes(d@), name@)).len() == 0,
        },
{
    match get(d, name) {
        Some(Node::List(v)) => Some(v),
        _ => None,
    }
}

fn resolve_object(objects: &Vec<Node>, v: &Node, d: &Vec<(String, Node)>, depth: usize) -> (r: String)
    requires
        depth <= 64,
        *v == Node::Dictionary(*d),
    ensures
        r@ == resolved(nodes(objects@), v@, depth as int),
    decreases 65 - depth, 0nat,
{
    proof {
        lemma_shows(*v);
    }
    let class = class_name(objects, d);
    let c = class.as_str();
    if same(c, "NSMutableArray") || same(c, "NSArray") || same(c, "NSMutableSet") || same(c, "NSSet") || same(c, "NSMutableOrderedSet") || same(
        c,
        "NSOrderedSet",
    ) {
        let none: Vec<Node> = Vec::new();
        let vs = match list_in(d, "NS.objects") {
            Some(x) => x,
            None => &none,
        };
        assert(nodes(vs@) =~= listed(held(named_nodes(d@), "NS.objects"@)));
        return resolve_list(objects, vs, depth + 1);
    }
    if same(c, "NSMutableDictionary") || same(c, "NSDictionary") {
        let none: Vec<Node> = Vec::new();
        let ks = match list_in(d, "NS.keys") {
            Some(x) => x,
            None => &none,
        };
        let vs = match list_in(d, "NS.objects") {
            Some(x) => x,
            None => &none,
        };
        assert(nodes(ks@) =~= listed(held(named_nodes(d@), "NS.keys"@)));
        assert(nodes(vs@) =~= listed(held(named_nodes(d@), "NS.objects"@)));
        return resolve_pairs(objects, ks, vs, depth + 1);
    }
    if same(c, "NSMutableString") || same(c, "NSString") {
        proof {
            reveal_strlit("");
            assert(""@ =~= Seq::<char>::empty());
        }
        return match get(d, "NS.string") {
            Some(Node::Text(s)) => json_string(s.as_str()),
            _ => json_string(""),
        };
    }
    if same(c, "NSDate") {
        let t = match get(d, "NS.time") {
            Some(Node::Real(t)) => own(t.as_str()),
            _ => own("0.0"),
        };
        return single("__date", t);
    }
    if same(c, "NSNull") {
        return own("null");
    }
    if same(c, "NSMutableData") || same(c, "NSData") {
        let n = match get(d, "NS.data") {
            Some(Node::Data(n)) => nat_string(*n as u128),
            _ => own("0"),
        };
        return single("__data", n);
    }
    resolve_members(objects, d, depth + 1)
}

fn resolve(objects: &Vec<Node>, v: &Node, depth: usize) -> (r: String)
    requires
        depth <= 65,
    ensures
        r@ == resolved(nodes(objects@), v@, depth as int),
    decreases 65 - depth, 1nat,
{
    if depth > 64 {
        return own("null");
    }
    proof {
        lemma_shows(*v);
    }
    match v {
        Node::Reference(u) => if *u < objects.len() as u64 {
            resolve(objects, &objects[*u as usize], depth + 1)
        } else {
            own("null")
        },
        Node::Dictionary(d) => resolve_object(objects, v, d, depth),
        Node::List(a) => resolve_list(objects, a, depth + 1),
        Node::Flag(b) => flag(*b),
        Node::Integer(i) => match i {
            Some(n) => int_string(*n),
            None => own("0"),
        },
        Node::Real(t) => own(t.as_str()),
        Node::Text(s) => json_string(s.as_str()),
        Node::Data(n) => single("__data", nat_string(*n as u128)),
        Node::Moment(t) => {
            let seconds = match t {
                Some(s) => own(s.as_str()),
                None => own("0.0"),
            };
            single("__unix", seconds)
        },
        Node::Other => own("null"),
    }
}

/// The document that the bytes of a backup unfold to, or why they do not.
pub open spec fn unfolded(archive: std::result::Result<Shown, Seq<char>>) -> std::result::Result<Seq<char>, Refusal> {
    match archive {
        Err(m) => Err(Refusal::Parse("not an Account Tracker backup: "@ + m)),
        Ok(n) => unfolded_node(n),
    }
}

/// The document that a property list unfolds to, or why it is no archive.
pub open spec fn unfolded_node(n: Shown) -> std::result::Result<Seq<char>, Refusal> {
    match n {
        Shown::Dictionary(top) => match held(top, "$objects"@) {
            Some(Shown::List(objects)) => match held(top, "$top"@) {
                Some(Shown::Dictionary(t)) => match held(t, "root"@) {
                    Some(root) => Ok(resolved(objects, root, 0)),
                    None => Err(Refusal::Parse("backup has no root"@)),
                },
                _ => Err(Refusal::Parse("backup has no root"@)),
            },
            _ => Err(Refusal::Parse("backup has no $objects"@)),
        },
        _ => Err(Refusal::Parse("backup is not a keyed archive"@)),
    }
}

/// Unfolds a property list from its root.
pub fn unfold_node(n: &Node) -> (r: Result<String>)
    ensures
        match r {
            Ok(d) => unfolded_node(n@) == Ok::<Seq<char>, Refusal>(d@),
            Err(e) => unfolded_node(n@) == Err::<Seq<char>, Refusal>(e@),
        },
{
    proof {
        lemma_shows(*n);
    }
    let top = match n {
        Node::Dictionary(d) => d,
        _ => {
            return Err(unreadable("backup is not a keyed archive"));
        },
    };
    let objects = match get(top, "$objects") {
        Some(Node::List(v)) => v,
        _ => {
            return Err(unreadable("backup has no $objects"));
        },
    };
    match get(top, "$top") {
        Some(Node::Dictionary(t)) => match get(t, "root") {
            Some(root) => Ok(resolve(objects, root, 0)),
            None => Err(unreadable("backup has no root")),
        },
        _ => Err(unreadable("backup has no root")),
    }
}

/// Reads a backup and unfolds it from its root, as JSON. Dates stand in it as `{"__date": seconds}`.
pub fn unfold(content: &[u8]) -> (r: Result<String>)
    ensures
        match r {
            Ok(d) => unfolded(archive_in(content@)) == Ok::<Seq<char>, Refusal>(d@),
            Err(e) => unfolded(archive_in(content@)) == Err::<Seq<char>, Refusal>(e@),
        },
{
    match read_archive(content) {
        Ok(n) => unfold_node(&n),
        Err(m) => Err(unreadable(cat("not an Account Tracker backup: ", m.as_str()).as_str())),
    }
}

} // verus!
