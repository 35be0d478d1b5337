use vstd::prelude::*;

use crate::error::Error;

verus! {

/// Mathematical model of a [`CdManager`]: the live path as a sequence of
/// segments, and one counter per open scope giving how many segments were
/// pushed through that scope. The last counter belongs to the innermost
/// open scope.
#[verifier::ext_equal]
pub ghost struct CdModel {
    pub segments: Seq<Seq<char>>,
    pub frames: Seq<nat>,
}

/// One operation on a path cursor, as the model sees it.
pub ghost enum CdOp {
    Push { parts: Seq<Seq<char>> },
    Pop,
    Layer,
    EndLayer,
}

/// Total number of segments pushed across all open scopes.
pub open spec fn frames_sum(frames: Seq<nat>) -> nat
    decreases frames.len(),
{
    if frames.len() == 0 {
        0
    } else {
        frames_sum(frames.drop_last()) + frames.last()
    }
}

/// Well-formedness: at least one scope is open, and no more segments are
/// accounted to the open scopes than the path holds.
pub open spec fn cd_wf(m: CdModel) -> bool {
    &&& m.frames.len() >= 1
    &&& frames_sum(m.frames) <= m.segments.len()
}

/// The path the cursor started from: the live path minus every segment
/// pushed through any open scope.
pub open spec fn cd_base(m: CdModel) -> Seq<Seq<char>> {
    m.segments.take(m.segments.len() - frames_sum(m.frames))
}

/// The transition of a path cursor under one operation.
///
/// A `Pop` on a scope whose counter is zero changes nothing (the executable
/// counterpart reports `CursorUnderflow`); an `EndLayer` on the outermost
/// scope changes nothing either.
pub open spec fn cd_step(m: CdModel, op: CdOp) -> CdModel {
    match op {
        CdOp::Push { parts } => CdModel {
            segments: m.segments + parts,
            frames: m.frames.update(m.frames.len() - 1, (m.frames.last() + parts.len()) as nat),
        },
        CdOp::Pop => {
            if m.frames.last() == 0 {
                m
            } else {
                CdModel {
                    segments: m.segments.drop_last(),
                    frames: m.frames.update(m.frames.len() - 1, (m.frames.last() - 1) as nat),
                }
            }
        },
        CdOp::Layer => CdModel { segments: m.segments, frames: m.frames.push(0) },
        CdOp::EndLayer => {
            if m.frames.len() <= 1 {
                m
            } else {
                CdModel {
                    segments: m.segments.take(m.segments.len() - m.frames.last()),
                    frames: m.frames.drop_last(),
                }
            }
        },
    }
}

/// The state after running a whole sequence of operations.
pub open spec fn cd_run(m: CdModel, ops: Seq<CdOp>) -> CdModel
    decreases ops.len(),
{
    if ops.len() == 0 {
        m
    } else {
        cd_run(cd_step(m, ops.first()), ops.skip(1))
    }
}

/// The operations stay confined to the scopes above `depth`: no `EndLayer`
/// ever closes the scope opened when only `depth` scopes stood below it.
pub open spec fn cd_confined(m: CdModel, ops: Seq<CdOp>, depth: nat) -> bool
    decreases ops.len(),
{
    ops.len() == 0 || {
        &&& (ops.first() is EndLayer ==> m.frames.len() > depth + 1)
        &&& cd_confined(cd_step(m, ops.first()), ops.skip(1), depth)
    }
}

proof fn lemma_sum_ge_last(frames: Seq<nat>)
    requires
        frames.len() >= 1,
    ensures
        frames_sum(frames) >= frames.last(),
{
}

proof fn lemma_sum_singleton(v: nat)
    ensures
        frames_sum(seq![v]) == v,
{
    assert(seq![v].drop_last() =~= Seq::<nat>::empty());
    assert(frames_sum(Seq::<nat>::empty()) == 0);
}

proof fn lemma_sum_update_last(frames: Seq<nat>, v: nat)
    requires
        frames.len() >= 1,
    ensures
        frames_sum(frames.update(frames.len() - 1, v)) + frames.last() == frames_sum(frames) + v,
{
    let u = frames.update(frames.len() - 1, v);
    assert(u.drop_last() =~= frames.drop_last());
    assert(u.last() == v);
}

proof fn lemma_sum_push(frames: Seq<nat>, v: nat)
    ensures
        frames_sum(frames.push(v)) == frames_sum(frames) + v,
{
    assert(frames.push(v).drop_last() =~= frames);
}

/// Well-formedness is preserved by every operation.
proof fn lemma_step_wf(m: CdModel, op: CdOp)
    requires
        cd_wf(m),
    ensures
        cd_wf(cd_step(m, op)),
{
    match op {
        CdOp::Push { parts } => {
            lemma_sum_update_last(m.frames, (m.frames.last() + parts.len()) as nat);
        },
        CdOp::Pop => {
            if m.frames.last() > 0 {
                lemma_sum_ge_last(m.frames);
                lemma_sum_update_last(m.frames, (m.frames.last() - 1) as nat);
            }
        },
        CdOp::Layer => {
            lemma_sum_push(m.frames, 0);
        },
        CdOp::EndLayer => {
            if m.frames.len() > 1 {
                lemma_sum_ge_last(m.frames);
            }
        },
    }
}

/// The invariant a confined run maintains above the scope opened on `m0`:
/// the scopes of `m0` stand untouched below at least one newer scope, the
/// path still begins with `m0`'s path, and its growth is exactly what the
/// newer scopes account for.
pub open spec fn scope_inv(m0: CdModel, m: CdModel) -> bool {
    let d = m0.frames.len() as int;
    &&& cd_wf(m)
    &&& m.frames.len() > m0.frames.len()
    &&& m.frames.take(d) =~= m0.frames
    &&& m.segments.len() == m0.segments.len() + frames_sum(m.frames.skip(d))
    &&& m.segments.take(m0.segments.len() as int) =~= m0.segments
}

proof fn lemma_sum_concat(a: Seq<nat>, b: Seq<nat>)
    ensures
        frames_sum(a + b) == frames_sum(a) + frames_sum(b),
    decreases b.len(),
{
    if b.len() == 0 {
        assert(a + b =~= a);
    } else {
        lemma_sum_concat(a, b.drop_last());
        assert((a + b).drop_last() =~= a + b.drop_last());
        assert((a + b).last() == b.last());
    }
}

proof fn lemma_scope_inv_step(m0: CdModel, m: CdModel, op: CdOp)
    requires
        cd_wf(m0),
        scope_inv(m0, m),
        op is EndLayer ==> m.frames.len() > m0.frames.len() + 1,
    ensures
        scope_inv(m0, cd_step(m, op)),
{
    let d = m0.frames.len() as int;
    let mn = cd_step(m, op);
    lemma_step_wf(m, op);
    assert(m.frames =~= m.frames.take(d) + m.frames.skip(d));
    lemma_sum_concat(m.frames.take(d), m.frames.skip(d));
    match op {
        CdOp::Push { parts } => {
            let v = (m.frames.last() + parts.len()) as nat;
            assert(mn.frames.take(d) =~= m.frames.take(d));
            assert(mn.frames.skip(d) =~= m.frames.skip(d).update(
                m.frames.skip(d).len() - 1,
                v,
            ));
            lemma_sum_update_last(m.frames.skip(d), v);
            assert(m.frames.skip(d).last() == m.frames.last());
            assert(mn.segments.take(m0.segments.len() as int) =~= m0.segments);
        },
        CdOp::Pop => {
            if m.frames.last() == 0 {
            } else {
                let v = (m.frames.last() - 1) as nat;
                assert(mn.frames.take(d) =~= m.frames.take(d));
                assert(mn.frames.skip(d) =~= m.frames.skip(d).update(
                    m.frames.skip(d).len() - 1,
                    v,
                ));
                lemma_sum_update_last(m.frames.skip(d), v);
                lemma_sum_ge_last(m.frames.skip(d));
                assert(m.frames.skip(d).last() == m.frames.last());
                assert(mn.segments.len() == m.segments.len() - 1);
                assert(mn.segments.take(m0.segments.len() as int) =~= m0.segments);
            }
        },
        CdOp::Layer => {
            assert(mn.frames.take(d) =~= m.frames.take(d));
            assert(mn.frames.skip(d) =~= m.frames.skip(d).push(0));
            lemma_sum_push(m.frames.skip(d), 0);
            assert(mn.segments.take(m0.segments.len() as int) =~= m0.segments);
        },
        CdOp::EndLayer => {
            assert(m.frames.len() > d + 1);
            assert(mn.frames =~= m.frames.drop_last());
            assert(mn.frames.take(d) =~= m.frames.take(d));
            assert(mn.frames.skip(d) =~= m.frames.skip(d).drop_last());
            lemma_sum_ge_last(m.frames.skip(d));
            assert(m.frames.skip(d).last() == m.frames.last());
            assert(frames_sum(mn.frames.skip(d)) == frames_sum(m.frames.skip(d))
                - m.frames.last());
            assert(mn.segments.len() == m.segments.len() - m.frames.last());
            assert(mn.segments.take(m0.segments.len() as int) =~= m0.segments);
        },
    }
}

proof fn lemma_scope_inv_run(m0: CdModel, m: CdModel, ops: Seq<CdOp>)
    requires
        cd_wf(m0),
        scope_inv(m0, m),
        cd_confined(m, ops, m0.frames.len()),
    ensures
        scope_inv(m0, cd_run(m, ops)),
    decreases ops.len(),
{
    if ops.len() == 0 {
    } else {
        lemma_scope_inv_step(m0, m, ops.first());
        lemma_scope_inv_run(m0, cd_step(m, ops.first()), ops.skip(1));
    }
}

/// Guaranteed restoration of a scope: open a scope with `layer`, run any
/// confined sequence of operations through it — pushes, pops, nested
/// scopes, in any order, ended normally or cut short by a failure path —
/// and the closing `end_layer` restores the cursor exactly to its state
/// when the scope was opened, provided every nested scope was closed (the
/// run ends with exactly the one extra scope open).
pub proof fn lemma_scope_restores(m: CdModel, ops: Seq<CdOp>)
    requires
        cd_wf(m),
        cd_confined(cd_step(m, CdOp::Layer), ops, m.frames.len()),
        cd_run(cd_step(m, CdOp::Layer), ops).frames.len() == m.frames.len() + 1,
    ensures
        cd_step(cd_run(cd_step(m, CdOp::Layer), ops), CdOp::EndLayer) == m,
{
    let d = m.frames.len() as int;
    let m1 = cd_step(m, CdOp::Layer);
    lemma_step_wf(m, CdOp::Layer);
    assert(scope_inv(m, m1)) by {
        assert(m1.frames.take(d) =~= m.frames);
        assert(m1.frames.skip(d) =~= seq![0nat]);
        lemma_sum_singleton(0);
        assert(m1.segments.take(m.segments.len() as int) =~= m.segments);
    };
    lemma_scope_inv_run(m, m1, ops);
    let m2 = cd_run(m1, ops);
    let mr = cd_step(m2, CdOp::EndLayer);
    assert(m2.frames.skip(d) =~= seq![m2.frames.last()]);
    lemma_sum_singleton(m2.frames.last());
    assert(m2.segments.len() == m.segments.len() + m2.frames.last());
    assert(mr.frames =~= m.frames) by {
        assert(m2.frames.drop_last() =~= m2.frames.take(d));
    };
    assert(mr.segments =~= m.segments) by {
        assert(mr.segments =~= m2.segments.take(m.segments.len() as int));
    };
    assert(mr =~= m);
}

/// A scoped path-navigation guard.
///
/// A `CdManager` owns a path, held as a sequence of segments, and tracks how
/// many segments were pushed through each open scope. Pushed segments are
/// popped again when the scope that pushed them ends, so a descent into a
/// subdirectory can never leak into the code that runs after the scope —
/// including failure paths, which close their scope before returning.
///
/// The only supported mutations are `push`, `pop`, and the scope pair
/// `layer` / `end_layer`; popping more segments than the innermost scope
/// pushed fails with [`Error::CursorUnderflow`] instead of corrupting the
/// base path.
#[derive(Debug)]
pub struct CdManager {
    segments: Vec<String>,
    frames: Vec<usize>,
}

impl View for CdManager {
    type V = CdModel;

    closed spec fn view(&self) -> CdModel {
        CdModel {
            segments: self.segments.deep_view(),
            frames: Seq::new(self.frames@.len(), |i: int| self.frames@[i] as nat),
        }
    }
}

impl CdManager {
    /// The cursor's invariant, stated over its model.
    pub open spec fn wf(&self) -> bool {
        cd_wf(self@)
    }

    /// Starts a new cursor owning the given path, with one open scope and
    /// nothing pushed yet.
    pub fn new(path: Vec<String>) -> (r: CdManager)
        ensures
            r@ == (CdModel { segments: path.deep_view(), frames: seq![0nat] }),
            r.wf(),
    {
        let r = CdManager { segments: path, frames: vec![0] };
        proof {
            assert(r@.frames =~= seq![0nat]);
            lemma_sum_singleton(0);
            assert(r@ =~= (CdModel { segments: r.segments.deep_view(), frames: seq![0nat] }));
        }
        r
    }

    /// Appends the given segments to the path; they are accounted to the
    /// innermost open scope.
    pub fn push_parts(&mut self, parts: &Vec<String>)
        requires
            old(self).wf(),
        ensures
            final(self)@ == cd_step(old(self)@, CdOp::Push { parts: parts.deep_view() }),
            final(self).wf(),
    {
        let ghost m0 = self@;
        let ghost pv = parts.deep_view();
        let n = parts.len();
        let mut i: usize = 0;
        while i < n
            invariant
                i <= n,
                n == parts@.len(),
                pv == parts.deep_view(),
                m0.frames.len() >= 1,
                self.frames@.len() == m0.frames.len(),
                self@.segments =~= m0.segments + pv.take(i as int),
                self@.frames =~= m0.frames.update(
                    m0.frames.len() - 1,
                    (m0.frames.last() + i) as nat,
                ),
                frames_sum(self@.frames) <= self@.segments.len(),
            decreases n - i,
        {
            let ghost mprev = self@;
            let seg = parts[i].clone();
            self.segments.push(seg);
            let sl = self.segments.len();
            let k = self.frames.len() - 1;
            proof {
                lemma_sum_ge_last(mprev.frames);
                assert(self.frames@[k as int] == mprev.frames.last());
                assert(mprev.frames.last() <= frames_sum(mprev.frames));
                assert(self@.segments =~= mprev.segments.push(pv[i as int]));
                assert(sl == mprev.segments.len() + 1);
            }
            let c = self.frames[k];
            self.frames[k] = c + 1;
            proof {
                assert(self@.segments =~= m0.segments + pv.take(i + 1));
                let target = m0.frames.update(m0.frames.len() - 1, (m0.frames.last() + i + 1) as nat);
                assert forall|j: int| 0 <= j < self@.frames.len() implies self@.frames[j]
                    == target[j] by {
                    if j == k as int {
                        assert(self@.frames[j] == (c + 1) as nat);
                        assert(c as nat == mprev.frames.last());
                        assert(mprev.frames.last() == (m0.frames.last() + i) as nat);
                    } else {
                        assert(self@.frames[j] == mprev.frames[j]);
                        assert(mprev.frames[j] == m0.frames[j]);
                    }
                };
                assert(self@.frames =~= target);
                lemma_sum_update_last(m0.frames, (m0.frames.last() + i + 1) as nat);
                lemma_sum_update_last(m0.frames, (m0.frames.last() + i) as nat);
            }
            i += 1;
        }
        proof {
            assert(pv.take(n as int) =~= pv);
            assert(final(self)@ =~= cd_step(m0, CdOp::Push { parts: pv }));
        }
    }

    /// Splits the given path on `/`, drops every component that is not a
    /// plain segment, and pushes what is left.
    pub fn push(&mut self, path: &str)
        requires
            old(self).wf(),
        ensures
            final(self)@ == cd_step(
                old(self)@,
                CdOp::Push { parts: crate::util::sanitize_spec(path@) },
            ),
            final(self).wf(),
    {
        let parts = crate::util::sanitize_filename(path);
        self.push_parts(&parts);
    }

    /// Removes the last pushed segment of the innermost open scope. Fails
    /// with [`Error::CursorUnderflow`], changing nothing, when that scope
    /// has no pushed segment left: the cursor never ascends above the path
    /// its scope started from.
    pub fn pop(&mut self) -> (r: Result<(), Error>)
        requires
            old(self).wf(),
        ensures
            final(self)@ == cd_step(old(self)@, CdOp::Pop),
            final(self).wf(),
            r is Ok <==> old(self)@.frames.last() > 0,
            r is Err ==> (r matches Err(Error::CursorUnderflow) && final(self)@ == old(self)@),
    {
        let ghost m0 = self@;
        let k = self.frames.len() - 1;
        let c = self.frames[k];
        if c == 0 {
            return Err(Error::CursorUnderflow);
        }
        proof {
            lemma_sum_ge_last(m0.frames);
        }
        self.segments.pop();
        self.frames[k] = c - 1;
        proof {
            assert(self@.segments =~= m0.segments.drop_last());
            assert(self@.frames =~= m0.frames.update(
                m0.frames.len() - 1,
                (m0.frames.last() - 1) as nat,
            ));
            lemma_step_wf(m0, CdOp::Pop);
            assert(final(self)@ =~= cd_step(m0, CdOp::Pop));
        }
        Ok(())
    }

    /// Opens a new scope sharing the same backing path. Segments pushed from
    /// now on are undone by the matching [`CdManager::end_layer`], leaving
    /// every outer scope untouched.
    pub fn layer(&mut self)
        requires
            old(self).wf(),
        ensures
            final(self)@ == cd_step(old(self)@, CdOp::Layer),
            final(self).wf(),
    {
        let ghost m0 = self@;
        self.frames.push(0);
        proof {
            assert(self@.frames =~= m0.frames.push(0));
            lemma_step_wf(m0, CdOp::Layer);
            assert(final(self)@ =~= cd_step(m0, CdOp::Layer));
        }
    }

    /// Closes the innermost scope, popping exactly the segments pushed
    /// through it and restoring the path to its value when the scope was
    /// opened. Fails with [`Error::CursorUnderflow`], changing nothing, when
    /// only the outermost scope is open.
    pub fn end_layer(&mut self) -> (r: Result<(), Error>)
        requires
            old(self).wf(),
        ensures
            final(self)@ == cd_step(old(self)@, CdOp::EndLayer),
            final(self).wf(),
            r is Ok <==> old(self)@.frames.len() > 1,
            r is Err ==> (r matches Err(Error::CursorUnderflow) && final(self)@ == old(self)@),
    {
        let ghost m0 = self@;
        if self.frames.len() <= 1 {
            return Err(Error::CursorUnderflow);
        }
        proof {
            lemma_sum_ge_last(m0.frames);
        }
        let k = self.frames.len() - 1;
        let c = self.frames[k];
        self.frames.pop();
        let keep = self.segments.len() - c;
        self.segments.truncate(keep);
        proof {
            assert(self@.frames =~= m0.frames.drop_last());
            assert(self@.segments =~= m0.segments.take(
                m0.segments.len() - m0.frames.last(),
            ));
            lemma_step_wf(m0, CdOp::EndLayer);
            assert(final(self)@ =~= cd_step(m0, CdOp::EndLayer));
        }
        Ok(())
    }

    /// Closes every scope, restoring the path to the value the cursor was
    /// created with.
    pub fn unwind(&mut self)
        requires
            old(self).wf(),
        ensures
            final(self)@ == (CdModel { segments: cd_base(old(self)@), frames: seq![0nat] }),
            final(self).wf(),
    {
        let ghost m0 = self@;
        while self.frames.len() > 1
            invariant
                self.wf(),
                cd_base(self@) =~= cd_base(m0),
            decreases self.frames@.len(),
        {
            let ghost mprev = self@;
            let closed = self.end_layer();
            proof {
                assert(closed is Ok);
                lemma_sum_ge_last(mprev.frames);
                let mnew = cd_step(mprev, CdOp::EndLayer);
                assert(frames_sum(mnew.frames) + mprev.frames.last() == frames_sum(mprev.frames));
                assert(mnew.segments.len() == mprev.segments.len() - mprev.frames.last());
                assert(cd_base(self@) =~= cd_base(mprev));
            }
        }
        let ghost mmid = self@;
        proof {
            assert(mmid.frames.len() == 1);
            assert(mmid.frames.drop_last() =~= Seq::<nat>::empty());
            assert(frames_sum(Seq::<nat>::empty()) == 0);
            assert(frames_sum(mmid.frames) == mmid.frames.last());
            assert(self.frames@[0] as nat == mmid.frames.last());
        }
        let k = self.frames[0];
        let keep = self.segments.len() - k;
        self.segments.truncate(keep);
        self.frames[0] = 0;
        proof {
            assert(self@.segments =~= cd_base(mmid));
            assert(self@.frames =~= seq![0nat]);
            lemma_sum_singleton(0);
            assert(final(self)@ =~= (CdModel { segments: cd_base(m0), frames: seq![0nat] }));
        }
    }

    /// The number of segments pushed through the innermost open scope.
    pub fn added_depth(&self) -> (r: usize)
        requires
            self.wf(),
        ensures
            r == self@.frames.last(),
    {
        let k = self.frames.len() - 1;
        self.frames[k]
    }

    /// An owned, independent copy of the live path, not tracked by the
    /// cursor.
    pub fn clone_inner(&self) -> (r: Vec<String>)
        ensures
            r.deep_view() == self@.segments,
    {
        clone_segments(&self.segments)
    }
}

/// An owned copy of a segment list, equal to it segment for segment.
pub fn clone_segments(v: &Vec<String>) -> (r: Vec<String>)
    ensures
        r.deep_view() == v.deep_view(),
        r@.len() == v@.len(),
{
    let mut r: Vec<String> = Vec::new();
    let n = v.len();
    let mut i: usize = 0;
    while i < n
        invariant
            i <= n,
            n == v@.len(),
            r@.len() == i,
            forall|j: int| 0 <= j < i ==> r@[j]@ == #[trigger] v@[j]@,
        decreases n - i,
    {
        r.push(v[i].clone());
        i += 1;
    }
    proof {
        assert(r.deep_view() =~= v.deep_view());
    }
    r
}

} // verus!
