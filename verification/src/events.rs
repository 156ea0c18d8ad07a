//! The events that an instrumented program records at run time.

use vstd::prelude::*;

use crate::text::{
    address, decimal, lemma_address_reads_back, lemma_decimal_reads_back, lemma_signed_decimal_reads_back, push_address,
    push_decimal, push_signed_decimal, reads_as_address, reads_as_decimal, signed_decimal,
};

verus! {

/// An address, as the instrumented program saw it.
pub type Pointer = usize;

/// The index of a MIR location in the metadata table.
pub type MirLocId = u32;

/// One event of the log: what happened, and at which MIR location.
#[derive(Clone, Copy, PartialEq, Eq, Structural)]
pub struct Event {
    pub mir_loc: MirLocId,
    pub kind: EventKind,
}

/// What an event records.
#[derive(Clone, Copy, PartialEq, Eq, Structural)]
pub enum EventKind {
    /// A copy from one local to another. This also covers casts such as `&mut
    /// T` to `&T` or `&T` to `*const T` that don't change the type or value of
    /// the pointer.
    Copy(Pointer),
    /// Field projection. Used for operations like `_2 = &(*_1).0`. Nested field
    /// accesses like `_4 = &(*_1).x.y.z` are broken into multiple `Node`s, each
    /// covering one level.
    Field(Pointer, u32),
    Alloc { size: usize, ptr: Pointer },
    Free { ptr: Pointer },
    Realloc { old_ptr: Pointer, size: usize, new_ptr: Pointer },
    Arg(Pointer),
    Ret(Pointer),
    Done,
    /// The pointer appears as the address of a load operation.
    LoadAddr(Pointer),
    /// The pointer appears as the address of a store operation.
    StoreAddr(Pointer),
    /// A copy of a reference into the event's destination local.
    CopyRef,
    /// The pointer is the value loaded through some other pointer.
    LoadValue(Pointer),
    /// The pointer is the value stored through some other pointer.
    StoreValue(Pointer),
    /// The pointer is converted to an integer.
    ToInt(Pointer),
    /// An integer is converted to the pointer.
    FromInt(Pointer),
    /// The address of a local (the `u32`) is taken.
    AddrOfLocal(Pointer, u32),
    /// Pointer arithmetic: the first pointer moved by the offset gives the second.
    Offset(Pointer, isize, Pointer),
}

impl Event {
    /// The event that marks the end of the log.
    pub fn done() -> (e: Self)
        ensures
            e.mir_loc == 0,
            e.kind == EventKind::Done,
    {
        Self { mir_loc: 0, kind: EventKind::Done }
    }

    /// The text of the event: its location (the given text, or else the
    /// location's number), a space, and the text of its kind.
    pub fn describe_at(&self, location: Option<&str>) -> (s: String)
        ensures
            s@ == event_text(*self, match location {
                Some(l) => Some(l@),
                None => None,
            }),
    {
        let mut s = String::new();
        match location {
            Some(l) => s.append(l),
            None => push_decimal(&mut s, self.mir_loc as u128),
        }
        s.append(" ");
        let k = self.kind.describe();
        s.append(k.as_str());
        s
    }
}

/// The text of an event: the location text if there is one, else the location's number.
pub open spec fn event_text(e: Event, location: Option<Seq<char>>) -> Seq<char> {
    let head = match location {
        Some(l) => l,
        None => decimal(e.mir_loc as nat),
    };
    head + " "@ + kind_text(e.kind)
}

/// The text of an event kind: addresses as `{:p}` writes them, sizes and
/// indices in decimal.
pub open spec fn kind_text(k: EventKind) -> Seq<char> {
    match k {
        EventKind::Copy(p) => "copy("@ + address(p as nat) + ")"@,
        EventKind::Field(p, id) => "field("@ + address(p as nat) + ", "@ + decimal(id as nat) + ")"@,
        EventKind::Alloc { size, ptr } => "malloc("@ + decimal(size as nat) + ") -> "@ + address(ptr as nat),
        EventKind::Free { ptr } => "free("@ + address(ptr as nat) + ")"@,
        EventKind::Realloc { old_ptr, size, new_ptr } => "realloc("@ + address(old_ptr as nat) + ", "@
            + decimal(size as nat) + ") -> "@ + address(new_ptr as nat),
        EventKind::Arg(p) => "arg("@ + address(p as nat) + ")"@,
        EventKind::Ret(p) => "ret("@ + address(p as nat) + ")"@,
        EventKind::Done => "done"@,
        EventKind::LoadAddr(p) => "load("@ + address(p as nat) + ")"@,
        EventKind::StoreAddr(p) => "store("@ + address(p as nat) + ")"@,
        EventKind::CopyRef => "copy_ref"@,
        EventKind::LoadValue(p) => "load_value("@ + address(p as nat) + ")"@,
        EventKind::StoreValue(p) => "store_value("@ + address(p as nat) + ")"@,
        EventKind::ToInt(p) => "ptr_to_int("@ + address(p as nat) + ")"@,
        EventKind::FromInt(p) => "int_to_ptr("@ + address(p as nat) + ")"@,
        EventKind::AddrOfLocal(p, l) => "addr_of_local("@ + address(p as nat) + ", "@ + decimal(l as nat) + ")"@,
        EventKind::Offset(p, off, q) => "offset("@ + address(p as nat) + ", "@ + signed_decimal(off as int)
            + ") -> "@ + address(q as nat),
    }
}

/// `prefix`, the address `p`, and a closing bracket.
fn call_text(prefix: &str, p: Pointer) -> (s: String)
    ensures
        s@ == prefix@ + address(p as nat) + ")"@,
{
    let mut s = String::new();
    s.append(prefix);
    push_address(&mut s, p as u128);
    s.append(")");
    s
}

impl EventKind {
    /// The text of the event kind, as `kind_text` gives it.
    pub fn describe(&self) -> (s: String)
        ensures
            s@ == kind_text(*self),
    {
        match *self {
            EventKind::Copy(p) => call_text("copy(", p),
            EventKind::Field(p, id) => {
                let mut s = String::new();
                s.append("field(");
                push_address(&mut s, p as u128);
                s.append(", ");
                push_decimal(&mut s, id as u128);
                s.append(")");
                s
            },
            EventKind::Alloc { size, ptr } => {
                let mut s = String::new();
                s.append("malloc(");
                push_decimal(&mut s, size as u128);
                s.append(") -> ");
                push_address(&mut s, ptr as u128);
                s
            },
            EventKind::Free { ptr } => call_text("free(", ptr),
            EventKind::Realloc { old_ptr, size, new_ptr } => {
                let mut s = String::new();
                s.append("realloc(");
                push_address(&mut s, old_ptr as u128);
                s.append(", ");
                push_decimal(&mut s, size as u128);
                s.append(") -> ");
                push_address(&mut s, new_ptr as u128);
                s
            },
            EventKind::Arg(p) => call_text("arg(", p),
            EventKind::Ret(p) => call_text("ret(", p),
            EventKind::Done => String::from_str("done"),
            EventKind::LoadAddr(p) => call_text("load(", p),
            EventKind::StoreAddr(p) => call_text("store(", p),
            EventKind::CopyRef => String::from_str("copy_ref"),
            EventKind::LoadValue(p) => call_text("load_value(", p),
            EventKind::StoreValue(p) => call_text("store_value(", p),
            EventKind::ToInt(p) => call_text("ptr_to_int(", p),
            EventKind::FromInt(p) => call_text("int_to_ptr(", p),
            EventKind::AddrOfLocal(p, l) => {
                let mut s = String::new();
                s.append("addr_of_local(");
                push_address(&mut s, p as u128);
                s.append(", ");
                push_decimal(&mut s, l as u128);
                s.append(")");
                s
            },
            EventKind::Offset(p, off, q) => {
                let mut s = String::new();
                s.append("offset(");
                push_address(&mut s, p as u128);
                s.append(", ");
                push_signed_decimal(&mut s, off as i128);
                s.append(") -> ");
                push_address(&mut s, q as u128);
                s
            },
        }
    }
}

/// The text of an event kind names the kind and writes each of its fields in
/// full: an address reads back as the whole pointer (as `{:p}` writes it), and
/// a size, field or local index, or offset reads back as the whole number.
pub proof fn lemma_kind_text_reads_back(k: EventKind)
    ensures
        match k {
            EventKind::Copy(p) => exists|a: Seq<char>|
                #[trigger] reads_as_address(a, p as nat) && kind_text(k) == "copy("@ + a + ")"@,
            EventKind::Arg(p) => exists|a: Seq<char>|
                #[trigger] reads_as_address(a, p as nat) && kind_text(k) == "arg("@ + a + ")"@,
            EventKind::Ret(p) => exists|a: Seq<char>|
                #[trigger] reads_as_address(a, p as nat) && kind_text(k) == "ret("@ + a + ")"@,
            EventKind::LoadAddr(p) => exists|a: Seq<char>|
                #[trigger] reads_as_address(a, p as nat) && kind_text(k) == "load("@ + a + ")"@,
            EventKind::StoreAddr(p) => exists|a: Seq<char>|
                #[trigger] reads_as_address(a, p as nat) && kind_text(k) == "store("@ + a + ")"@,
            EventKind::LoadValue(p) => exists|a: Seq<char>|
                #[trigger] reads_as_address(a, p as nat) && kind_text(k) == "load_value("@ + a + ")"@,
            EventKind::StoreValue(p) => exists|a: Seq<char>|
                #[trigger] reads_as_address(a, p as nat) && kind_text(k) == "store_value("@ + a + ")"@,
            EventKind::ToInt(p) => exists|a: Seq<char>|
                #[trigger] reads_as_address(a, p as nat) && kind_text(k) == "ptr_to_int("@ + a + ")"@,
            EventKind::FromInt(p) => exists|a: Seq<char>|
                #[trigger] reads_as_address(a, p as nat) && kind_text(k) == "int_to_ptr("@ + a + ")"@,
            EventKind::Free { ptr } => exists|a: Seq<char>|
                #[trigger] reads_as_address(a, ptr as nat) && kind_text(k) == "free("@ + a + ")"@,
            EventKind::Field(p, id) => exists|a: Seq<char>, b: Seq<char>|
                #![trigger reads_as_address(a, p as nat), reads_as_decimal(b, id as int)]
                reads_as_address(a, p as nat) && reads_as_decimal(b, id as int) && kind_text(k) == "field("@ + a + ", "@
                    + b + ")"@,
            EventKind::Alloc { size, ptr } => exists|a: Seq<char>, b: Seq<char>|
                #![trigger reads_as_decimal(a, size as int), reads_as_address(b, ptr as nat)]
                reads_as_decimal(a, size as int) && reads_as_address(b, ptr as nat) && kind_text(k) == "malloc("@ + a
                    + ") -> "@ + b,
            EventKind::Realloc { old_ptr, size, new_ptr } => exists|a: Seq<char>, b: Seq<char>, c: Seq<char>|
                #![trigger reads_as_address(a, old_ptr as nat), reads_as_decimal(b, size as int), reads_as_address(c, new_ptr as nat)]
                reads_as_address(a, old_ptr as nat) && reads_as_decimal(b, size as int) && reads_as_address(
                    c,
                    new_ptr as nat,
                ) && kind_text(k) == "realloc("@ + a + ", "@ + b + ") -> "@ + c,
            EventKind::AddrOfLocal(p, l) => exists|a: Seq<char>, b: Seq<char>|
                #![trigger reads_as_address(a, p as nat), reads_as_decimal(b, l as int)]
                reads_as_address(a, p as nat) && reads_as_decimal(b, l as int) && kind_text(k) == "addr_of_local("@ + a
                    + ", "@ + b + ")"@,
            EventKind::Offset(p, off, q) => exists|a: Seq<char>, b: Seq<char>, c: Seq<char>|
                #![trigger reads_as_address(a, p as nat), reads_as_decimal(b, off as int), reads_as_address(c, q as nat)]
                reads_as_address(a, p as nat) && reads_as_decimal(b, off as int) && reads_as_address(c, q as nat)
                    && kind_text(k) == "offset("@ + a + ", "@ + b + ") -> "@ + c,
            EventKind::Done => kind_text(k) == "done"@,
            EventKind::CopyRef => kind_text(k) == "copy_ref"@,
        },
{
    match k {
        EventKind::Copy(p) | EventKind::Arg(p) | EventKind::Ret(p) | EventKind::LoadAddr(p) | EventKind::StoreAddr(p)
        | EventKind::LoadValue(p) | EventKind::StoreValue(p) | EventKind::ToInt(p) | EventKind::FromInt(p) => {
            lemma_address_reads_back(p as nat);
        },
        EventKind::Free { ptr } => {
            lemma_address_reads_back(ptr as nat);
        },
        EventKind::Field(p, id) => {
            lemma_address_reads_back(p as nat);
            lemma_decimal_reads_back(id as nat);
        },
        EventKind::Alloc { size, ptr } => {
            lemma_decimal_reads_back(size as nat);
            lemma_address_reads_back(ptr as nat);
        },
        EventKind::Realloc { old_ptr, size, new_ptr } => {
            lemma_address_reads_back(old_ptr as nat);
            lemma_decimal_reads_back(size as nat);
            lemma_address_reads_back(new_ptr as nat);
        },
        EventKind::AddrOfLocal(p, l) => {
            lemma_address_reads_back(p as nat);
            lemma_decimal_reads_back(l as nat);
        },
        EventKind::Offset(p, off, q) => {
            lemma_address_reads_back(p as nat);
            lemma_signed_decimal_reads_back(off as int);
            lemma_address_reads_back(q as nat);
        },
        _ => {},
    }
}

/// The text of an event is its location text, a space and its kind's text;
/// without a location text it starts with the whole location number in decimal.
pub proof fn lemma_event_text_reads_back(e: Event, location: Seq<char>)
    ensures
        exists|a: Seq<char>|
            #[trigger] reads_as_decimal(a, e.mir_loc as int) && event_text(e, None) == a + " "@ + kind_text(e.kind),
        event_text(e, Some(location)) == location + " "@ + kind_text(e.kind),
{
    lemma_decimal_reads_back(e.mir_loc as nat);
}

} // verus!
