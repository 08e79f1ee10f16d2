//! A transparent document tree for the key-value description format.
//!
//! The loader works on this library-owned tree, in which a number scalar
//! carries its decimal text; every rule of the object schema is then an
//! ordinary verified function over plain data.

use vstd::prelude::*;

verus! {

/// One node of a parsed document.
pub enum YamlNode {
    /// A null scalar.
    Null,
    /// A boolean scalar.
    Bool(bool),
    /// A number scalar, carried as its decimal text.
    Num(String),
    /// A string scalar.
    Str(String),
    /// A sequence of nodes.
    Sequence(Vec<YamlNode>),
    /// A mapping, as key-value pairs in document order.
    Mapping(Vec<(YamlNode, YamlNode)>),
}

/// Character-wise string equality.
pub fn str_eq(a: &str, b: &str) -> (r: bool)
    ensures
        r <==> a@ == b@,
{
    let n = a.unicode_len();
    if n != b.unicode_len() {
        return false;
    }
    let mut i: usize = 0;
    while i < n
        invariant
            i <= n,
            n == a@.len(),
            n == b@.len(),
            forall|j: int| 0 <= j < i ==> a@[j] == b@[j],
        decreases n - i,
    {
        if a.get_char(i) != b.get_char(i) {
            return false;
        }
        i = i + 1;
    }
    proof {
        assert(a@ =~= b@);
    }
    true
}

/// The value at `key` in a list of mapping entries: the first entry whose
/// key is the string `key`.
pub open spec fn spec_get(entries: Seq<(YamlNode, YamlNode)>, key: Seq<char>) -> Option<YamlNode>
    decreases entries.len(),
{
    if entries.len() == 0 {
        None
    } else if entries[0].0 matches YamlNode::Str(k) && k@ == key {
        Some(entries[0].1)
    } else {
        spec_get(entries.drop_first(), key)
    }
}

/// The value at `key` when the node is a mapping; `None` otherwise.
pub open spec fn spec_node_get(n: YamlNode, key: Seq<char>) -> Option<YamlNode> {
    match n {
        YamlNode::Mapping(es) => spec_get(es@, key),
        _ => None,
    }
}

impl YamlNode {
    /// Look a key up when this node is a mapping.
    pub fn get<'a>(&'a self, key: &str) -> (r: Option<&'a YamlNode>)
        ensures
            match r {
                Option::Some(v) => spec_node_get(*self, key@) == Some(*v),
                Option::None => spec_node_get(*self, key@) is None,
            },
    {
        match self {
            YamlNode::Mapping(es) => {
                let n = es.len();
                let mut i: usize = 0;
                proof {
                    assert(es@.skip(0) =~= es@);
                }
                while i < n
                    invariant
                        i <= n,
                        n == es@.len(),
                        *self == YamlNode::Mapping(*es),
                        spec_get(es@.skip(i as int), key@) == spec_get(es@, key@),
                    decreases n - i,
                {
                    proof {
                        assert(es@.skip(i as int)[0] == es@[i as int]);
                        assert(es@.skip(i as int).drop_first() =~= es@.skip(i + 1));
                    }
                    match &es[i].0 {
                        YamlNode::Str(k) => {
                            if str_eq(k.as_str(), key) {
                                proof {
                                    assert(spec_get(es@.skip(i as int), key@) == Some(
                                        es@[i as int].1,
                                    ));
                                    assert(spec_node_get(*self, key@) == spec_get(es@, key@));
                                }
                                return Some(&es[i].1);
                            }
                        },
                        _ => {},
                    }
                    i = i + 1;
                }
                proof {
                    assert(es@.skip(n as int).len() == 0);
                }
                None
            },
            _ => None,
        }
    }
}

} // verus!
