//! Batching of the tick engine's outward effects before they are queued for the
//! bridge's I/O task.
use vstd::prelude::*;
use crate::tick::types::BridgeEffect;
use crate::types::EntitySlot;

verus! {

/// The effects of `s` that are not `Persist`, in order.
pub open spec fn non_persist(s: Seq<BridgeEffect>) -> Seq<BridgeEffect>
    decreases s.len(),
{
    if s.len() == 0 {
        s
    } else if s.last() is Persist {
        non_persist(s.drop_last())
    } else {
        non_persist(s.drop_last()).push(s.last())
    }
}

/// Whether some effect of `s` is a `Persist`.
pub open spec fn has_persist(s: Seq<BridgeEffect>) -> bool {
    exists|i: int| 0 <= i < s.len() && #[trigger] s[i] is Persist
}

/// The entity states of all `Persist` effects of `s`, concatenated in order.
pub open spec fn persisted_states(s: Seq<BridgeEffect>) -> Seq<(EntitySlot, Vec<u8>)>
    decreases s.len(),
{
    if s.len() == 0 {
        Seq::empty()
    } else {
        match s.last() {
            BridgeEffect::Persist { entity_states } => persisted_states(s.drop_last()) + entity_states@,
            _ => persisted_states(s.drop_last()),
        }
    }
}

/// Coalesce a batch: all `Persist` effects become one, sent after the other effects,
/// which keep their order.
pub fn coalesce_effect_batch(effects: Vec<BridgeEffect>) -> (out: Vec<BridgeEffect>)
    ensures
        !has_persist(effects@) ==> out@ == non_persist(effects@),
        has_persist(effects@) ==> out@.len() == non_persist(effects@).len() + 1 && out@.drop_last()
            == non_persist(effects@) && (out@.last() matches BridgeEffect::Persist { entity_states }
            && entity_states@ == persisted_states(effects@)),
{
    let ghost all = effects@;
    let n = effects.len();
    let mut rest = effects;
    let mut out: Vec<BridgeEffect> = Vec::new();
    let mut states: Vec<(EntitySlot, Vec<u8>)> = Vec::new();
    let mut any = false;
    let mut i: usize = 0;
    while rest.len() > 0
        invariant
            all.len() == n,
            i + rest@.len() == n,
            rest@ == all.skip(i as int),
            out@ == non_persist(all.take(i as int)),
            states@ == persisted_states(all.take(i as int)),
            any == has_persist(all.take(i as int)),
        decreases rest@.len(),
    {
        let ghost r0 = rest@;
        let e = rest.remove(0);
        assert(e == all[i as int]);
        assert(rest@ =~= all.skip(i as int + 1));
        let ghost t = all.take(i as int + 1);
        assert(t.drop_last() =~= all.take(i as int));
        assert(t.last() == e);
        match e {
            BridgeEffect::Persist { entity_states } => {
                let mut es = entity_states;
                states.append(&mut es);
                any = true;
                assert(t[i as int] is Persist);
            },
            other => {
                out.push(other);
                assert(has_persist(t) == has_persist(all.take(i as int))) by {
                    if has_persist(t) {
                        let k = choose|k: int| 0 <= k < t.len() && #[trigger] t[k] is Persist;
                        assert(k < i);
                        assert(all.take(i as int)[k] == t[k]);
                    }
                    if has_persist(all.take(i as int)) {
                        let k = choose|k: int| 0 <= k < i && #[trigger] all.take(i as int)[k] is Persist;
                        assert(t[k] == all.take(i as int)[k]);
                    }
                }
            },
        }
        i = i + 1;
    }
    assert(all.take(i as int) =~= all);
    if any {
        let ghost before = out@;
        out.push(BridgeEffect::Persist { entity_states: states });
        assert(out@.drop_last() =~= before);
    }
    out
}

} // verus!
