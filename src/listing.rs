use vstd::prelude::*;
use crate::program::{KernelProgramInfo, Program};

verus! {

/// The kernel's identifier for a managed program, once it is loaded.
pub open spec fn kernel_id_of(p: Program) -> Option<u32> {
    match p.spec_data() {
        Some(d) => match d.kernel_info {
            Some(k) => Some(k.id),
            None => None,
        },
        None => None,
    }
}

/// Whether a managed program stands for kernel program `kid`.
pub open spec fn is_managed(managed: Seq<Program>, kid: u32) -> bool {
    exists|i: int| 0 <= i < managed.len() && kernel_id_of(#[trigger] managed[i]) == Some(kid)
}

/// The kernel's programs that no managed program stands for, in the kernel's
/// order, each as a program found only in the kernel.
pub open spec fn unmanaged(managed: Seq<Program>, kernel: Seq<KernelProgramInfo>) -> Seq<Program>
    decreases kernel.len(),
{
    if kernel.len() == 0 {
        Seq::empty()
    } else {
        let rest = unmanaged(managed, kernel.drop_last());
        if is_managed(managed, kernel.last().id) {
            rest
        } else {
            rest.push(Program::Unsupported(kernel.last()))
        }
    }
}

/// Whether `kid` is the kernel identifier of one of the first `m` programs.
fn managed_has(programs: &Vec<Program>, m: usize, kid: u32) -> (r: bool)
    requires
        m <= programs@.len(),
    ensures
        r == is_managed(programs@.take(m as int), kid),
{
    let mut i: usize = 0;
    while i < m
        invariant
            i <= m <= programs@.len(),
            forall|j: int| 0 <= j < i ==> kernel_id_of(#[trigger] programs@[j]) != Some(kid),
        decreases m - i,
    {
        let hit = match programs[i].data() {
            Ok(d) => match &d.kernel_info {
                Some(k) => k.id == kid,
                None => false,
            },
            Err(_) => false,
        };
        if hit {
            proof {
                assert(programs@.take(m as int)[i as int] == programs@[i as int]);
            }
            return true;
        }
        i = i + 1;
    }
    proof {
        if is_managed(programs@.take(m as int), kid) {
            let j = choose|j: int| 0 <= j < m && kernel_id_of(#[trigger] programs@.take(m as int)[j]) == Some(kid);
            assert(programs@.take(m as int)[j] == programs@[j]);
        }
    }
    false
}

/// The answer to a listing: every managed program, followed by every kernel
/// program that none of them stands for.
pub fn list_programs(managed: Vec<Program>, kernel: Vec<KernelProgramInfo>) -> (r: Vec<Program>)
    ensures
        r@ == managed@ + unmanaged(managed@, kernel@),
{
    let m = managed.len();
    let ghost ms = managed@;
    let ghost ks = kernel@;
    let mut out = managed;
    let mut rest = kernel;
    let total = rest.len();
    let mut i: usize = 0;
    while rest.len() > 0
        invariant
            out@.len() >= m,
            m == ms.len(),
            out@.take(m as int) == ms,
            i + rest@.len() == ks.len(),
            ks.len() == total,
            rest@ == ks.skip(i as int),
            out@ == ms + unmanaged(ms, ks.take(i as int)),
        decreases rest@.len(),
    {
        let k = rest.remove(0);
        proof {
            assert(ks.take(i + 1).drop_last() =~= ks.take(i as int));
            assert(ks.take(i + 1).last() == k);
        }
        let seen = managed_has(&out, m, k.id);
        if !seen {
            out.push(Program::Unsupported(k));
            proof {
                assert(out@.take(m as int) =~= ms);
            }
        }
        i = i + 1;
        proof {
            assert(rest@ =~= ks.skip(i as int));
            assert(out@ =~= ms + unmanaged(ms, ks.take(i as int)));
        }
    }
    proof {
        assert(ks.take(i as int) =~= ks);
    }
    out
}

/// A listing holds exactly the kernel programs that no managed program
/// stands for: each of those appears, as a program found only in the kernel,
/// and everything it adds to the managed ones is such a program.
pub proof fn lemma_listing_exact(managed: Seq<Program>, kernel: Seq<KernelProgramInfo>)
    ensures
        forall|i: int| 0 <= i < kernel.len() && !is_managed(managed, (#[trigger] kernel[i]).id)
            ==> unmanaged(managed, kernel).contains(Program::Unsupported(kernel[i])),
        forall|j: int| 0 <= j < unmanaged(managed, kernel).len() ==> {
            let p = #[trigger] unmanaged(managed, kernel)[j];
            &&& p is Unsupported
            &&& kernel.contains(p->Unsupported_0)
            &&& !is_managed(managed, p->Unsupported_0.id)
        },
    decreases kernel.len(),
{
    if kernel.len() > 0 {
        let init = kernel.drop_last();
        lemma_listing_exact(managed, init);
        let rest = unmanaged(managed, init);
        let u = unmanaged(managed, kernel);
        assert forall|i: int| 0 <= i < kernel.len() && !is_managed(managed, (#[trigger] kernel[i]).id)
            implies u.contains(Program::Unsupported(kernel[i])) by {
            if i < kernel.len() - 1 {
                assert(init[i] == kernel[i]);
                let w = choose|w: int| 0 <= w < rest.len() && rest[w] == Program::Unsupported(init[i]);
                assert(u[w] == rest[w]);
            } else {
                assert(u[u.len() - 1] == Program::Unsupported(kernel[i]));
            }
        }
        assert forall|j: int| 0 <= j < u.len() implies {
            let p = #[trigger] u[j];
            &&& p is Unsupported
            &&& kernel.contains(p->Unsupported_0)
            &&& !is_managed(managed, p->Unsupported_0.id)
        } by {
            if j < rest.len() {
                assert(u[j] == rest[j]);
                let p = rest[j];
                let w = choose|w: int| 0 <= w < init.len() && init[w] == p->Unsupported_0;
                assert(kernel[w] == init[w]);
            } else {
                assert(kernel[kernel.len() - 1] == kernel.last());
            }
        }
    }
}

} // verus!
