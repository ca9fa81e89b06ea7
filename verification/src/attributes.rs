//! String-valued attributes attached to log records and metric readings.

use vstd::prelude::*;
use vstd::string::StringExecFns;

verus! {

/// A key and its string value.
#[derive(Debug)]
pub struct Attribute {
    pub key: String,
    pub value: String,
}

impl View for Attribute {
    type V = (Seq<char>, Seq<char>);

    open spec fn view(&self) -> (Seq<char>, Seq<char>) {
        (self.key@, self.value@)
    }
}

/// The (key, value) texts of a list of attributes, in order.
pub open spec fn pairs(v: Seq<Attribute>) -> Seq<(Seq<char>, Seq<char>)> {
    v.map_values(|a: Attribute| a@)
}

impl Attribute {
    /// The attribute `key = value`.
    pub fn new(key: &str, value: &str) -> (a: Attribute)
        ensures
            a.key@ == key@,
            a.value@ == value@,
    {
        Attribute { key: String::from_str(key), value: String::from_str(value) }
    }

    /// A copy of this attribute.
    pub fn duplicate(&self) -> (a: Attribute)
        ensures
            a == *self,
    {
        Attribute { key: self.key.clone(), value: self.value.clone() }
    }
}

/// A copy of `v`, element by element.
pub fn copy_attributes(v: &Vec<Attribute>) -> (r: Vec<Attribute>)
    ensures
        r@ == v@,
{
    let mut r: Vec<Attribute> = Vec::new();
    for i in 0..v.len()
        invariant
            r@ == v@.take(i as int),
    {
        r.push(v[i].duplicate());
        assert(r@ == v@.take(i + 1));
    }
    assert(v@.take(v.len() as int) == v@);
    r
}

/// A copy of `base` followed by `extra`.
pub fn extended(base: &Vec<Attribute>, extra: Vec<Attribute>) -> (r: Vec<Attribute>)
    ensures
        r@ == base@ + extra@,
{
    let mut r = copy_attributes(base);
    let mut extra = extra;
    r.append(&mut extra);
    r
}

/// The attributes that every record of the service carries: the host name,
/// when the system reports one.
pub fn base_attributes(host_name: Option<String>) -> (r: Vec<Attribute>)
    ensures
        pairs(r@) == match host_name {
            Some(h) => seq![("hostname"@, h@)],
            None => Seq::empty(),
        },
{
    let mut r: Vec<Attribute> = Vec::new();
    if let Some(h) = host_name {
        r.push(Attribute { key: String::from_str("hostname"), value: h });
    }
    proof {
        assert(pairs(r@) =~= match host_name {
            Some(h) => seq![("hostname"@, h@)],
            None => Seq::empty(),
        });
    }
    r
}

} // verus!
