use vstd::prelude::*;
use crate::demangle::{demangle, demangled};
use crate::frame::{offered, Frame};
use crate::lock::{lock, LockState};
use crate::symbolize::{copy_opt_bytes, opt_bytes, Symbol, SymbolView, symbol_views};

verus! {

/// An owned copy of one resolved symbol, kept after resolution has ended.
#[derive(Debug)]
pub struct BacktraceSymbol {
    name: Option<Vec<u8>>,
    filename: Option<Vec<u8>>,
    lineno: Option<u32>,
    addr: usize,
}

impl View for BacktraceSymbol {
    type V = SymbolView;

    closed spec fn view(&self) -> SymbolView {
        SymbolView {
            name: opt_bytes(self.name),
            filename: opt_bytes(self.filename),
            lineno: self.lineno,
            addr: self.addr,
        }
    }
}

impl BacktraceSymbol {
    /// Copies a transient symbol record into an owned one.
    pub fn from_symbol(s: &Symbol) -> (r: BacktraceSymbol)
        ensures
            r@ == s@,
    {
        BacktraceSymbol {
            name: s.name_bytes(),
            filename: s.filename(),
            lineno: s.lineno(),
            addr: s.addr(),
        }
    }

    /// The raw name bytes, if known.
    pub fn name(&self) -> (r: Option<Vec<u8>>)
        ensures
            opt_bytes(r) == self@.name,
    {
        copy_opt_bytes(&self.name)
    }

    /// The display form of the name, if the name is known: demangled where
    /// the grammar accepts it, the raw bytes otherwise.
    pub fn demangled_name(&self) -> (r: Option<Vec<u8>>)
        ensures
            r.is_some() == self@.name.is_some(),
            r.is_some() ==> r.unwrap()@ == demangled(self@.name.unwrap()),
    {
        match &self.name {
            Some(n) => Some(demangle(n.as_slice())),
            None => None,
        }
    }

    /// The source file, if known.
    pub fn filename(&self) -> (r: Option<Vec<u8>>)
        ensures
            opt_bytes(r) == self@.filename,
    {
        copy_opt_bytes(&self.filename)
    }

    /// The source line, if known.
    pub fn lineno(&self) -> (r: Option<u32>)
        ensures
            r == self@.lineno,
    {
        self.lineno
    }

    /// The address the symbol starts at.
    pub fn addr(&self) -> (r: usize)
        ensures
            r == self@.addr,
    {
        self.addr
    }
}

/// The views of a sequence of owned symbols, in the same order.
pub open spec fn owned_views(s: Seq<BacktraceSymbol>) -> Seq<SymbolView> {
    s.map_values(|x: BacktraceSymbol| x@)
}

/// An owned copy of one frame's addresses and of the symbols found for it,
/// in the backend's order.
#[derive(Debug)]
pub struct BacktraceFrame {
    ip: usize,
    sp: usize,
    symbol_address: usize,
    symbols: Vec<BacktraceSymbol>,
}

/// What an owned frame holds, as plain values.
pub struct FrameCopy {
    pub ip: usize,
    pub sp: usize,
    pub symbol_address: usize,
    pub symbols: Seq<SymbolView>,
}

impl View for BacktraceFrame {
    type V = FrameCopy;

    closed spec fn view(&self) -> FrameCopy {
        FrameCopy {
            ip: self.ip,
            sp: self.sp,
            symbol_address: self.symbol_address,
            symbols: owned_views(self.symbols@),
        }
    }
}

/// `c` holds the addresses of `f` and copies of `syms`, in order.
pub open spec fn copies(c: FrameCopy, f: Frame, syms: Seq<Symbol>) -> bool {
    &&& c.ip == f.ip
    &&& c.sp == f.sp
    &&& c.symbol_address == f.symbol_address
    &&& c.symbols == symbol_views(syms)
}

impl BacktraceFrame {
    /// Copies a frame and the symbols found at its symbol address.
    pub fn from_parts(f: &Frame, syms: &Vec<Symbol>) -> (r: BacktraceFrame)
        ensures
            copies(r@, *f, syms@),
    {
        let mut symbols: Vec<BacktraceSymbol> = Vec::new();
        let mut i: usize = 0;
        while i < syms.len()
            invariant
                i <= syms.len(),
                owned_views(symbols@) == symbol_views(syms@.subrange(0, i as int)),
            decreases syms.len() - i,
        {
            let c = BacktraceSymbol::from_symbol(&syms[i]);
            let ghost before = symbols@;
            symbols.push(c);
            proof {
                assert(symbols@ == before.push(c));
                assert(owned_views(symbols@) =~= owned_views(before).push(c@));
                assert(syms@.subrange(0, i + 1) =~= syms@.subrange(0, i as int).push(syms@[i as int]));
                assert(symbol_views(syms@.subrange(0, i + 1)) =~= symbol_views(
                    syms@.subrange(0, i as int),
                ).push(syms@[i as int]@));
            }
            i = i + 1;
        }
        assert(syms@.subrange(0, i as int) =~= syms@);
        assert(owned_views(symbols@) == symbol_views(syms@));
        BacktraceFrame { ip: f.ip, sp: f.sp, symbol_address: f.symbol_address, symbols }
    }

    /// The return address of the frame.
    pub fn ip(&self) -> (r: usize)
        ensures
            r == self@.ip,
    {
        self.ip
    }

    /// The stack pointer of the frame.
    pub fn sp(&self) -> (r: usize)
        ensures
            r == self@.sp,
    {
        self.sp
    }

    /// The address the frame's symbols were looked up by.
    pub fn symbol_address(&self) -> (r: usize)
        ensures
            r == self@.symbol_address,
    {
        self.symbol_address
    }

    /// The symbols found for the frame, innermost inlined call first.
    pub fn symbols(&self) -> (r: &[BacktraceSymbol])
        ensures
            owned_views(r@) == self@.symbols,
    {
        self.symbols.as_slice()
    }
}

/// An owned snapshot of a stack: frames innermost first.
#[derive(Debug)]
pub struct Backtrace {
    frames: Vec<BacktraceFrame>,
}

/// An owned frame keeps the addresses of the frame it copies and every
/// symbol the backend reported for it, in the backend's order (innermost
/// inlined call first), none added, dropped or moved.
pub proof fn lemma_copy_keeps_addresses_and_order(c: FrameCopy, f: Frame, syms: Seq<Symbol>)
    requires
        copies(c, f, syms),
    ensures
        c.ip == f.ip,
        c.symbol_address == f.symbol_address,
        c.symbols.len() == syms.len(),
        forall|i: int| 0 <= i < syms.len() ==> #[trigger] c.symbols[i] == syms[i]@,
{
}

/// Frame 0 of a snapshot built from a walk copies the first frame after the
/// walking code's own, with its symbol address.
pub proof fn lemma_first_frame_is_caller(
    r: Seq<FrameCopy>,
    raw: Seq<Frame>,
    machinery: nat,
    symbols: Seq<Vec<Symbol>>,
)
    requires
        r.len() == offered(raw, machinery).len(),
        forall|i: int| 0 <= i < r.len() ==> #[trigger] copies(r[i], offered(raw, machinery)[i], symbols[i]@),
        r.len() > 0,
    ensures
        r[0].ip == raw[machinery as int].ip,
        r[0].symbol_address == raw[machinery as int].symbol_address,
{
    assert(copies(r[0], offered(raw, machinery)[0], symbols[0]@));
}

/// `c` copies `f` and one outcome of looking up its symbol address.
pub open spec fn captured<L: Fn(usize) -> Vec<Symbol>>(lookup: L, c: FrameCopy, f: Frame) -> bool {
    exists|syms: Vec<Symbol>| call_ensures(lookup, (f.symbol_address,), syms) && copies(c, f, syms@)
}

/// The views of a sequence of owned frames, in the same order.
pub open spec fn frame_views(s: Seq<BacktraceFrame>) -> Seq<FrameCopy> {
    s.map_values(|x: BacktraceFrame| x@)
}

impl View for Backtrace {
    type V = Seq<FrameCopy>;

    closed spec fn view(&self) -> Seq<FrameCopy> {
        frame_views(self.frames@)
    }
}

impl Backtrace {
    /// A snapshot with no frames: what a capture gives when the lock is
    /// not available to the calling thread.
    pub fn empty() -> (r: Backtrace)
        ensures
            r@.len() == 0,
    {
        let r = Backtrace { frames: Vec::new() };
        assert(r@ =~= Seq::<FrameCopy>::empty());
        r
    }

    /// Builds a snapshot from the frames of a finished walk (the walking
    /// code's own `machinery` frames left out) and, for each of the frames
    /// kept, the symbols found at its symbol address.
    pub fn from_walk(raw: &Vec<Frame>, machinery: usize, symbols: &Vec<Vec<Symbol>>) -> (r: Backtrace)
        requires
            symbols.len() == offered(raw@, machinery as nat).len(),
        ensures
            r@.len() == offered(raw@, machinery as nat).len(),
            forall|i: int| 0 <= i < r@.len() ==>
                #[trigger] copies(r@[i], offered(raw@, machinery as nat)[i], symbols@[i]@),
    {
        let ghost o = offered(raw@, machinery as nat);
        let mut frames: Vec<BacktraceFrame> = Vec::new();
        if machinery >= raw.len() {
            let r = Backtrace { frames };
            assert(r@ =~= Seq::<FrameCopy>::empty());
            return r;
        }
        let mut i: usize = machinery;
        while i < raw.len()
            invariant
                machinery <= i <= raw.len(),
                o == raw@.subrange(machinery as int, raw.len() as int),
                symbols.len() == o.len(),
                frames.len() == i - machinery,
                forall|k: int| 0 <= k < frames.len() ==> #[trigger] copies(frames@[k]@, o[k], symbols@[k]@),
            decreases raw.len() - i,
        {
            assert(o[i - machinery] == raw@[i as int]);
            frames.push(BacktraceFrame::from_parts(&raw[i], &symbols[i - machinery]));
            i = i + 1;
        }
        let r = Backtrace { frames };
        assert(r@.len() == frames@.len());
        r
    }

    /// Walks the calling thread's stack and resolves every frame, all under
    /// one hold of the lock, into an owned snapshot. `walker` performs the
    /// raw native walk (its first `machinery` frames are the walking code's
    /// own) and `lookup` the native symbol query; both are called only with
    /// the lock held. A thread that already holds the lock gets an empty
    /// snapshot. The lock is left as it was found.
    pub fn capture<W: Fn() -> Vec<Frame>, L: Fn(usize) -> Vec<Symbol>>(
        state: &mut LockState,
        walker: W,
        machinery: usize,
        lookup: L,
    ) -> (r: Backtrace)
        requires
            call_requires(walker, ()),
            forall|a: usize| call_requires(lookup, (a,)),
        ensures
            *final(state) == *old(state),
            !old(state).held ==> !final(state).held,
            old(state).held ==> r@.len() == 0,
            !old(state).held ==> exists|raw: Vec<Frame>| {
                &&& call_ensures(walker, (), raw)
                &&& r@.len() == offered(raw@, machinery as nat).len()
                &&& forall|i: int| 0 <= i < r@.len() ==>
                    #[trigger] captured(lookup, r@[i], offered(raw@, machinery as nat)[i])
            },
    {
        let guard = match lock(state) {
            Some(g) => g,
            None => return Backtrace::empty(),
        };
        let raw = walker();
        let ghost o = offered(raw@, machinery as nat);
        let mut symbols: Vec<Vec<Symbol>> = Vec::new();
        if machinery < raw.len() {
            let mut i: usize = machinery;
            while i < raw.len()
                invariant
                    machinery <= i <= raw.len(),
                    o == raw@.subrange(machinery as int, raw.len() as int),
                    forall|a: usize| call_requires(lookup, (a,)),
                    symbols.len() == i - machinery,
                    forall|k: int| 0 <= k < symbols.len() ==>
                        #[trigger] call_ensures(lookup, (o[k].symbol_address,), symbols@[k]),
                decreases raw.len() - i,
            {
                assert(o[i - machinery] == raw@[i as int]);
                symbols.push(lookup(raw[i].symbol_address));
                i = i + 1;
            }
        }
        let r = Backtrace::from_walk(&raw, machinery, &symbols);
        assert forall|i: int| 0 <= i < r@.len() implies #[trigger] captured(lookup, r@[i], o[i]) by {
            assert(call_ensures(lookup, (o[i].symbol_address,), symbols@[i]));
            assert(copies(r@[i], o[i], symbols@[i]@));
        }
        guard.release(state);
        r
    }

    /// The frames, innermost first.
    pub fn frames(&self) -> (r: &[BacktraceFrame])
        ensures
            frame_views(r@) == self@,
    {
        self.frames.as_slice()
    }
}

} // verus!
