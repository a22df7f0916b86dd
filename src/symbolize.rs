use vstd::prelude::*;
use crate::demangle::{demangle, demangled};
use crate::lock::{lock, LockState};

verus! {

/// What a symbol record says, as plain values.
pub struct SymbolView {
    pub name: Option<Seq<u8>>,
    pub filename: Option<Seq<u8>>,
    pub lineno: Option<u32>,
    pub addr: usize,
}

/// The bytes of an optional byte string.
pub open spec fn opt_bytes(o: Option<Vec<u8>>) -> Option<Seq<u8>> {
    match o {
        Some(v) => Some(v@),
        None => None,
    }
}

/// Copies an optional byte string.
pub fn copy_opt_bytes(o: &Option<Vec<u8>>) -> (r: Option<Vec<u8>>)
    ensures
        opt_bytes(r) == opt_bytes(*o),
{
    match o {
        Some(v) => {
            let c = v.clone();
            assert(c@ =~= v@);
            Some(c)
        },
        None => None,
    }
}

/// A symbol's name as the backend reported it; its display form is worked
/// out only on request.
#[derive(Debug)]
pub struct SymbolName {
    bytes: Vec<u8>,
}

impl View for SymbolName {
    type V = Seq<u8>;

    closed spec fn view(&self) -> Seq<u8> {
        self.bytes@
    }
}

impl SymbolName {
    /// Wraps the raw bytes of a name.
    pub fn new(bytes: Vec<u8>) -> (r: SymbolName)
        ensures
            r@ == bytes@,
    {
        SymbolName { bytes }
    }

    /// The raw bytes of the name.
    pub fn as_bytes(&self) -> (r: &[u8])
        ensures
            r@ == self@,
    {
        self.bytes.as_slice()
    }

    /// The display form of the name: demangled where a known scheme
    /// accepts it, the raw bytes otherwise.
    pub fn demangled(&self) -> (r: Vec<u8>)
        ensures
            r@ == demangled(self@),
    {
        demangle(self.bytes.as_slice())
    }
}

/// One symbol that the backend found at an address.
#[derive(Debug)]
pub struct Symbol {
    name: Option<Vec<u8>>,
    filename: Option<Vec<u8>>,
    lineno: Option<u32>,
    addr: usize,
}

impl View for Symbol {
    type V = SymbolView;

    closed spec fn view(&self) -> SymbolView {
        SymbolView {
            name: opt_bytes(self.name),
            filename: opt_bytes(self.filename),
            lineno: self.lineno,
            addr: self.addr,
        }
    }
}

impl Symbol {
    /// A symbol record; any of name, file and line may be unknown.
    pub fn new(name: Option<Vec<u8>>, filename: Option<Vec<u8>>, lineno: Option<u32>, addr: usize) -> (r: Symbol)
        ensures
            r@ == (SymbolView { name: opt_bytes(name), filename: opt_bytes(filename), lineno, addr }),
    {
        Symbol { name, filename, lineno, addr }
    }

    /// The name, if the backend knows it.
    pub fn name(&self) -> (r: Option<SymbolName>)
        ensures
            r.is_some() == self@.name.is_some(),
            r.is_some() ==> r.unwrap()@ == self@.name.unwrap(),
    {
        match copy_opt_bytes(&self.name) {
            Some(b) => Some(SymbolName::new(b)),
            None => None,
        }
    }

    /// The raw name bytes, if known.
    pub fn name_bytes(&self) -> (r: Option<Vec<u8>>)
        ensures
            opt_bytes(r) == self@.name,
    {
        copy_opt_bytes(&self.name)
    }

    /// The source file, if known.
    pub fn filename(&self) -> (r: Option<Vec<u8>>)
        ensures
            opt_bytes(r) == self@.filename,
    {
        copy_opt_bytes(&self.filename)
    }

    /// The source line, if known.
    pub fn lineno(&self) -> (r: Option<u32>)
        ensures
            r == self@.lineno,
    {
        self.lineno
    }

    /// The address the symbol starts at.
    pub fn addr(&self) -> (r: usize)
        ensures
            r == self@.addr,
    {
        self.addr
    }
}

/// The views of a sequence of symbol records, in the same order.
pub open spec fn symbol_views(s: Seq<Symbol>) -> Seq<SymbolView> {
    s.map_values(|x: Symbol| x@)
}

/// Hands each symbol that a lookup found to `visit`, in the backend's
/// order. Returns how many were visited: all of them.
pub fn visit_symbols<V: Fn(&Symbol)>(symbols: &Vec<Symbol>, visit: V) -> (n: usize)
    requires
        forall|s: &Symbol| call_requires(visit, (s,)),
    ensures
        n == symbols.len(),
        forall|i: int| 0 <= i < symbols.len() ==> #[trigger] call_ensures(visit, (&symbols@[i],), ()),
{
    let mut i: usize = 0;
    while i < symbols.len()
        invariant
            i <= symbols.len(),
            forall|s: &Symbol| call_requires(visit, (s,)),
            forall|k: int| 0 <= k < i ==> #[trigger] call_ensures(visit, (&symbols@[k],), ()),
        decreases symbols.len() - i,
    {
        visit(&symbols[i]);
        i = i + 1;
    }
    i
}

/// Resolves `addr` to its symbols and hands each to `visit`. `lookup`
/// queries the native symbol backend and is only called with the lock held.
/// A thread that already holds the lock, or an address without debug
/// information, visits nothing. Returns how many symbols were visited.
pub fn resolve<L: Fn(usize) -> Vec<Symbol>, V: Fn(&Symbol)>(
    state: &mut LockState,
    addr: usize,
    lookup: L,
    visit: V,
) -> (n: usize)
    requires
        call_requires(lookup, (addr,)),
        forall|s: &Symbol| call_requires(visit, (s,)),
    ensures
        *final(state) == *old(state),
        old(state).held ==> n == 0,
        !old(state).held ==> exists|syms: Vec<Symbol>| {
            &&& call_ensures(lookup, (addr,), syms)
            &&& n == syms.len()
            &&& forall|i: int| 0 <= i < syms.len() ==> #[trigger] call_ensures(visit, (&syms@[i],), ())
        },
        (forall|syms: Vec<Symbol>| call_ensures(lookup, (addr,), syms) ==> syms.len() == 0) ==> n == 0,
{
    let guard = match lock(state) {
        Some(g) => g,
        None => return 0,
    };
    let syms = lookup(addr);
    let n = visit_symbols(&syms, visit);
    guard.release(state);
    n
}

} // verus!
