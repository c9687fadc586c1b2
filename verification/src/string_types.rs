//! The string types of XML names.
use vstd::prelude::*;

verus! {

/// A qualified name: an optional namespace prefix and a local part.
#[derive(Debug, PartialEq, Eq)]
pub struct QName {
    pub prefix: String,
    pub local_part: String,
}

impl QName {
    /// A qualified name with both parts empty.
    pub fn new() -> (name: Self)
        ensures
            name.prefix@ == Seq::<char>::empty(),
            name.local_part@ == Seq::<char>::empty(),
    {
        QName { prefix: String::new(), local_part: String::new() }
    }
}

/// An expanded name: a qualified name, or a name qualified by a URI,
/// held as written.
#[derive(Debug, PartialEq, Eq)]
pub enum EQName {
    QName(QName),
    URIQualifiedName(String),
}

} // verus!
