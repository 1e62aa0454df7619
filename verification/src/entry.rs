//! Plain data of the front end that writes selections and entry points
//! down: the kind of an entry point, the flavor of its runtime, and the
//! block of a branch.

use vstd::prelude::*;
use core::ops::Range;
use vstd::string::StringSliceAdditionalSpecFns;

verus! {

/// The kind of an entry point.
#[derive(Debug, Clone, Copy, PartialEq, Eq, Structural)]
pub enum EntryKind {
    /// The main function of a program.
    Main,
    /// A test.
    Test,
}

/// Whether the runtime of an entry point can use more than one thread.
#[derive(Debug, Clone, Copy, PartialEq, Eq, Structural)]
pub enum SupportsThreading {
    /// It can.
    Supported,
    /// It cannot.
    NotSupported,
}

impl EntryKind {
    /// The name of the attribute used as the entry kind.
    pub fn name(&self) -> (r: &'static str)
        ensures
            r@ == match self {
                EntryKind::Main => "tokio::main"@,
                EntryKind::Test => "tokio::test"@,
            },
    {
        match self {
            EntryKind::Main => "tokio::main",
            EntryKind::Test => "tokio::test",
        }
    }
}

/// The flavor of a runtime.
#[derive(Debug, Clone, Copy, PartialEq, Eq, Structural)]
pub enum RuntimeFlavor {
    /// Everything runs on the thread that started the runtime.
    CurrentThread,
    /// The runtime has worker threads.
    Threaded,
}

/// Whether two strings of bytes are the same.
pub fn same_bytes(a: &[u8], b: &[u8]) -> (r: bool)
    ensures
        r <==> a@ == b@,
{
    if a.len() != b.len() {
        return false;
    }
    let mut i: usize = 0;
    while i < a.len()
        invariant
            i <= a.len(),
            a.len() == b.len(),
            forall|k: int| 0 <= k < i ==> a@[k] == b@[k],
        decreases a.len() - i,
    {
        if a[i] != b[i] {
            return false;
        }
        i = i + 1;
    }
    assert(a@ =~= b@);
    true
}

/// The flavor that a literal with the bytes `bytes` names, quotes included,
/// or what is wrong with it. Three names of earlier days get a hint at the
/// name in use now.
pub open spec fn flavor_of(bytes: Seq<u8>) -> Result<RuntimeFlavor, &'static str> {
    if bytes == "\"current_thread\"".spec_bytes() {
        Ok(RuntimeFlavor::CurrentThread)
    } else if bytes == "\"multi_thread\"".spec_bytes() {
        Ok(RuntimeFlavor::Threaded)
    } else if bytes == "\"single_thread\"".spec_bytes() {
        Err("the single threaded runtime flavor is called \"current_thread\"")
    } else if bytes == "\"basic_scheduler\"".spec_bytes() {
        Err("the \"basic_scheduler\" runtime flavor has been renamed to \"current_thread\"")
    } else if bytes == "\"threaded_scheduler\"".spec_bytes() {
        Err("the \"threaded_scheduler\" runtime flavor has been renamed to \"multi_thread\"")
    } else {
        Err(
            "no such runtime flavor, the runtime flavors are: \"current_thread\", \"multi_thread\"",
        )
    }
}

impl RuntimeFlavor {
    /// Parses a literal, as it appears in source code and so with its
    /// quotes, as a runtime flavor.
    pub fn from_literal(s: &str) -> (r: Result<RuntimeFlavor, &'static str>)
        ensures
            r == flavor_of(s.spec_bytes()),
    {
        let bytes = s.as_bytes();
        if same_bytes(bytes, "\"current_thread\"".as_bytes()) {
            Ok(RuntimeFlavor::CurrentThread)
        } else if same_bytes(bytes, "\"multi_thread\"".as_bytes()) {
            Ok(RuntimeFlavor::Threaded)
        } else if same_bytes(bytes, "\"single_thread\"".as_bytes()) {
            Err("the single threaded runtime flavor is called \"current_thread\"")
        } else if same_bytes(bytes, "\"basic_scheduler\"".as_bytes()) {
            Err("the \"basic_scheduler\" runtime flavor has been renamed to \"current_thread\"")
        } else if same_bytes(bytes, "\"threaded_scheduler\"".as_bytes()) {
            Err("the \"threaded_scheduler\" runtime flavor has been renamed to \"multi_thread\"")
        } else {
            Err(
                "no such runtime flavor, the runtime flavors are: \"current_thread\", \"multi_thread\"",
            )
        }
    }
}

/// The block of a branch: where its tokens stand, and whether they are a
/// group in braces or a bare expression.
pub enum Block {
    /// A group in braces.
    Group(Range<usize>),
    /// A bare expression.
    Expr(Range<usize>),
}

impl Block {
    /// Indicates if this block is an expression or not.
    pub fn is_expr(&self) -> (r: bool)
        ensures
            r <==> self is Expr,
    {
        match self {
            Block::Expr(_) => true,
            Block::Group(_) => false,
        }
    }
}

} // verus!
