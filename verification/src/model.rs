//! The program model handed to the analysis: function instances with
//! bodies made of lock-guard operations and call sites, plus the
//! approximate lock-identity descriptors the detector compares.

use vstd::prelude::*;

verus! {

/// Where an operation stands in the analyzed source, as plain
/// file/line/column numbers assigned by the program model.
#[derive(Clone, Copy, Debug, PartialEq, Eq, Structural)]
pub struct SourceLoc {
    pub file: u64,
    pub line: u64,
    pub column: u64,
}

/// How a guard brackets access to the protected data, distinguishing
/// reentrant-safe from non-reentrant semantics.
#[derive(Clone, Copy, Debug, PartialEq, Eq, Structural)]
pub enum GuardKind {
    /// Mutual exclusion; re-acquiring while held deadlocks or is undefined.
    Exclusive,
    /// Shared read access; reentrant under some but not all implementations.
    SharedRead,
    /// Shared-lock write access; non-reentrant.
    SharedWrite,
    /// Explicitly reentrant; re-acquiring while held is permitted.
    Reentrant,
}

/// Whether a guard operation acquires or releases.
#[derive(Clone, Copy, Debug, PartialEq, Eq, Structural)]
pub enum OpKind {
    Acquire,
    Release,
}

/// An approximate key for "which lock is this": a static allocation
/// site, a field path reached through a receiver, or a heap-indirect
/// location that cannot be compared.
#[derive(Clone, Copy, Debug, PartialEq, Eq, Structural)]
pub enum LockId {
    /// A lock at a fixed static allocation site.
    StaticSite { site: u64 },
    /// A lock reached as a field path on some receiver value; `base_ty`
    /// is the receiver's type and `path` the projection from it.
    FieldProjection { receiver: u64, base_ty: u64, path: u64 },
    /// A lock behind arbitrary heap indirection; identity is unknown.
    HeapIndirect { token: u64 },
}

/// How confidently two lock identity descriptors denote the same lock.
#[derive(Clone, Copy, Debug, PartialEq, Eq, Structural)]
pub enum AliasTier {
    /// Identical static location.
    Exact,
    /// Same field path through different receivers of the same type.
    Likely,
    /// Heap-indirect on at least one side; cannot compare.
    Unknown,
}

/// One event on a body: the acquisition or release of a guard.
/// A release is matched against held guards by position (LIFO), so its
/// `guard`, `lock` and `loc` fields only serve reporting.
#[derive(Clone, Copy, Debug, PartialEq, Eq, Structural)]
pub struct LockGuardOp {
    pub op: OpKind,
    pub guard: GuardKind,
    pub lock: LockId,
    pub loc: SourceLoc,
}

/// One statement of an instance body, in program order. Scope-exit
/// releases are synthesized as explicit `Guard` release statements by
/// the program model.
#[derive(Clone, Copy, Debug, PartialEq, Eq, Structural)]
pub enum Stmt {
    /// A lock-guard acquisition or release.
    Guard { op: LockGuardOp },
    /// A direct call, resolved by the callee's definition and concrete
    /// type arguments.
    CallDirect { def: u64, substs: u64 },
    /// An indirect call (dynamic dispatch, function pointer); resolved
    /// conservatively to every instance with a compatible signature.
    CallIndirect { sig: u64 },
}

/// A concrete, fully monomorphized function: stable identity
/// (definition plus concrete type arguments), a signature key for
/// indirect-call resolution, and an ordered body.
#[derive(Clone, Debug)]
pub struct Instance {
    pub def: u64,
    pub substs: u64,
    pub sig: u64,
    pub body: Vec<Stmt>,
}

/// The alias class a pair of descriptors falls in: `None` when the two
/// descriptors are assumed distinct (different static sites, different
/// field paths, or descriptors of different shapes), otherwise the tier
/// at which they may denote the same lock. Any heap-indirect side makes
/// the pair incomparable, hence `Unknown`.
pub open spec fn spec_alias_tier(a: LockId, b: LockId) -> Option<AliasTier> {
    match (a, b) {
        (LockId::HeapIndirect { .. }, _) => Some(AliasTier::Unknown),
        (_, LockId::HeapIndirect { .. }) => Some(AliasTier::Unknown),
        (LockId::StaticSite { site: s1 }, LockId::StaticSite { site: s2 }) => {
            if s1 == s2 {
                Some(AliasTier::Exact)
            } else {
                None
            }
        },
        (
            LockId::FieldProjection { receiver: r1, base_ty: t1, path: p1 },
            LockId::FieldProjection { receiver: r2, base_ty: t2, path: p2 },
        ) => {
            if t1 == t2 && p1 == p2 {
                if r1 == r2 {
                    Some(AliasTier::Exact)
                } else {
                    Some(AliasTier::Likely)
                }
            } else {
                None
            }
        },
        _ => None,
    }
}

/// Compares two lock identity descriptors and returns the alias tier
/// at which they may denote the same lock, or `None` when they are
/// assumed distinct.
pub fn alias_tier(a: LockId, b: LockId) -> (r: Option<AliasTier>)
    ensures
        r == spec_alias_tier(a, b),
{
    match (a, b) {
        (LockId::HeapIndirect { .. }, _) => Some(AliasTier::Unknown),
        (_, LockId::HeapIndirect { .. }) => Some(AliasTier::Unknown),
        (LockId::StaticSite { site: s1 }, LockId::StaticSite { site: s2 }) => {
            if s1 == s2 {
                Some(AliasTier::Exact)
            } else {
                None
            }
        },
        (
            LockId::FieldProjection { receiver: r1, base_ty: t1, path: p1 },
            LockId::FieldProjection { receiver: r2, base_ty: t2, path: p2 },
        ) => {
            if t1 == t2 && p1 == p2 {
                if r1 == r2 {
                    Some(AliasTier::Exact)
                } else {
                    Some(AliasTier::Likely)
                }
            } else {
                None
            }
        },
        _ => None,
    }
}

/// A guard kind whose re-acquisition while held certainly cannot
/// succeed: exclusive and shared-write guards. Shared-read guards are
/// reentrant under some but not all implementations, and reentrant
/// guards permit re-acquisition.
pub open spec fn spec_non_reentrant(k: GuardKind) -> bool {
    match k {
        GuardKind::Exclusive => true,
        GuardKind::SharedWrite => true,
        GuardKind::SharedRead => false,
        GuardKind::Reentrant => false,
    }
}

/// Whether re-acquiring a guard of this kind while held certainly
/// cannot succeed.
pub fn non_reentrant(k: GuardKind) -> (r: bool)
    ensures
        r == spec_non_reentrant(k),
{
    match k {
        GuardKind::Exclusive => true,
        GuardKind::SharedWrite => true,
        GuardKind::SharedRead => false,
        GuardKind::Reentrant => false,
    }
}

} // verus!
