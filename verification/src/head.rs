//! The plain data behind a page's `<head>`: script and meta tags. Rendering
//! them to markup is the caller's concern.

use vstd::prelude::*;

verus! {

/// A script tag: a source path, loaded as a module or as a classic script.
#[derive(Debug, Clone, PartialEq, Eq, Hash)]
pub struct Script {
    pub src: String,
    pub module: bool,
}

impl Script {
    /// A classic (non-module) script.
    pub fn new(src: String) -> (r: Script)
        ensures
            r.src@ == src@,
            !r.module,
    {
        Script { src, module: false }
    }

    /// A script loaded as an ES module.
    pub fn module(src: String) -> (r: Script)
        ensures
            r.src@ == src@,
            r.module,
    {
        Script { src, module: true }
    }
}

/// A meta tag: a name and its content.
#[derive(Debug, Clone, PartialEq, Eq, Hash)]
pub struct Meta {
    pub name: String,
    pub content: String,
}

impl Meta {
    pub fn new(name: String, content: String) -> (r: Meta)
        ensures
            r.name@ == name@,
            r.content@ == content@,
    {
        Meta { name, content }
    }
}

} // verus!
