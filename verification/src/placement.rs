//! Window placement: the factory's plan, the bootstrap dedup rule, and the
//! resync rule.
//!
//! The windowing framework creates and moves the OS windows; everything it is
//! told — labels, initial logical positions, which monitors get a window of
//! their own, and what a resync must re-apply — is decided here and proved
//! against the identity scheme and the registry.

use vstd::prelude::*;

use crate::geometry::MonitorInfo;
use crate::geometry::logical_coord;
use crate::geometry::to_logical;
use crate::identity::identity;
use crate::identity::identity_spec;
use crate::identity::lemma_identity_injective_over_origin;
use crate::identity::lemma_main_label_distinct;
use crate::identity::main_label;
use crate::registry::WindowPositions;
use crate::registry::insert_all;
use crate::registry::lemma_registry_batch;

verus! {

/// What the windowing framework needs to create one wallpaper window: its
/// label and its initial position in logical units. The window is created
/// without OS decorations; for the default window (no monitor) the position
/// is the logical origin.
pub struct WindowPlan {
    pub label: String,
    pub logical_x: i64,
    pub logical_y: i64,
}

/// Computes the creation plan for one wallpaper window: the label comes from
/// the identity scheme, the position is the monitor's physical origin in
/// logical units under its scale factor — or the origin itself when no
/// monitor is given.
pub fn plan_window(monitor: Option<&MonitorInfo>) -> (r: WindowPlan)
    requires
        monitor matches Some(m) ==> m.wf(),
    ensures
        monitor is None ==> r.label@ == identity_spec(None) && r.logical_x == 0 && r.logical_y
            == 0,
        monitor matches Some(m) ==> r.label@ == identity_spec(Some(*m)) && r.logical_x
            == logical_coord(m.x as int, m.scale_millis as int) && r.logical_y == logical_coord(
            m.y as int,
            m.scale_millis as int,
        ),
{
    let label = identity(monitor);
    match monitor {
        None => WindowPlan { label, logical_x: 0, logical_y: 0 },
        Some(m) => {
            let lx = to_logical(m.x, m.scale_millis);
            let ly = to_logical(m.y, m.scale_millis);
            WindowPlan { label, logical_x: lx, logical_y: ly }
        },
    }
}

/// The bootstrap selection: of the monitors in `s`, in order, those that get
/// a wallpaper window of their own. A monitor is skipped when its origin is
/// already covered — by the main window's monitor or by a monitor selected
/// before it.
pub open spec fn plan_seq(main: MonitorInfo, s: Seq<MonitorInfo>) -> Seq<MonitorInfo>
    decreases s.len(),
{
    if s.len() == 0 {
        Seq::empty()
    } else {
        let pre = plan_seq(main, s.drop_last());
        let m = s.last();
        if m.same_origin(main) || (exists|k: int|
            0 <= k < pre.len() && (#[trigger] pre[k]).same_origin(m)) {
            pre
        } else {
            pre.push(m)
        }
    }
}

/// Decides which of the enumerated monitors get a window of their own,
/// deduplicating by origin: the main window's monitor is already covered, and
/// of several monitors reporting the same origin only the first is kept.
pub fn plan_wallpaper_windows(main_monitor: &MonitorInfo, monitors: &Vec<MonitorInfo>) -> (r: Vec<
    MonitorInfo,
>)
    ensures
        r@ == plan_seq(*main_monitor, monitors@),
{
    let mut picked: Vec<MonitorInfo> = Vec::new();
    let mut i: usize = 0;
    proof {
        assert(monitors@.subrange(0, 0) =~= Seq::<MonitorInfo>::empty());
    }
    while i < monitors.len()
        invariant
            i <= monitors.len(),
            picked@ == plan_seq(*main_monitor, monitors@.subrange(0, i as int)),
        decreases monitors.len() - i,
    {
        let m = monitors[i];
        let mut dup: bool = m.x == main_monitor.x && m.y == main_monitor.y;
        let mut j: usize = 0;
        while j < picked.len()
            invariant
                j <= picked.len(),
                dup == (m.same_origin(*main_monitor) || (exists|k: int|
                    0 <= k < j && (#[trigger] picked@[k]).same_origin(m))),
            decreases picked.len() - j,
        {
            if picked[j].x == m.x && picked[j].y == m.y {
                dup = true;
            }
            j = j + 1;
        }
        proof {
            let pre = monitors@.subrange(0, i as int);
            let full = monitors@.subrange(0, i + 1);
            assert(full.drop_last() =~= pre);
            assert(full.last() == monitors@[i as int]);
        }
        if !dup {
            picked.push(m);
        }
        i = i + 1;
    }
    proof {
        assert(monitors@.subrange(0, monitors@.len() as int) =~= monitors@);
    }
    picked
}

/// The bootstrap selection covers each distinct origin at most once: no
/// selected monitor shares an origin with the main monitor, no two selected
/// monitors share an origin, and every selected monitor comes from the input.
pub proof fn lemma_plan_origins_distinct(main: MonitorInfo, s: Seq<MonitorInfo>)
    ensures
        forall|i: int|
            0 <= i < plan_seq(main, s).len() ==> !(#[trigger] plan_seq(main, s)[i]).same_origin(
                main,
            ),
        forall|i: int, j: int|
            0 <= i < j < plan_seq(main, s).len() ==> !(#[trigger] plan_seq(main, s)[i]).same_origin(
                #[trigger] plan_seq(main, s)[j],
            ),
        forall|i: int|
            0 <= i < plan_seq(main, s).len() ==> s.contains(#[trigger] plan_seq(main, s)[i]),
    decreases s.len(),
{
    if s.len() > 0 {
        lemma_plan_origins_distinct(main, s.drop_last());
        let pre = plan_seq(main, s.drop_last());
        let plan = plan_seq(main, s);
        assert forall|i: int| 0 <= i < plan.len() implies s.contains(#[trigger] plan[i]) by {
            if i < pre.len() {
                assert(s.drop_last().contains(pre[i]));
                let w = choose|w: int| 0 <= w < s.drop_last().len() && s.drop_last()[w] == pre[i];
                assert(s[w] == pre[i]);
            } else {
                assert(plan[i] == s.last());
                assert(s[s.len() - 1] == s.last());
            }
        }
    }
}

/// Every enumerated monitor ends up covered: its origin is the main
/// monitor's, or a monitor with the same origin was selected.
pub proof fn lemma_plan_covers(main: MonitorInfo, s: Seq<MonitorInfo>)
    ensures
        forall|i: int|
            0 <= i < s.len() ==> (#[trigger] s[i]).same_origin(main) || (exists|k: int|
                0 <= k < plan_seq(main, s).len() && (#[trigger] plan_seq(main, s)[k]).same_origin(
                    s[i],
                )),
    decreases s.len(),
{
    if s.len() > 0 {
        lemma_plan_covers(main, s.drop_last());
        let pre = plan_seq(main, s.drop_last());
        let plan = plan_seq(main, s);
        assert forall|i: int|
            0 <= i < s.len() && !(#[trigger] s[i]).same_origin(main) implies (exists|k: int|
            0 <= k < plan.len() && (#[trigger] plan[k]).same_origin(s[i])) by {
            if i < s.len() - 1 {
                assert(s.drop_last()[i] == s[i]);
                let k = choose|k: int| 0 <= k < pre.len() && (#[trigger] pre[k]).same_origin(s[i]);
                assert(plan[k] == pre[k]);
            } else {
                let m = s.last();
                if exists|k: int| 0 <= k < pre.len() && (#[trigger] pre[k]).same_origin(m) {
                    let k = choose|k: int| 0 <= k < pre.len() && (#[trigger] pre[k]).same_origin(m);
                    assert(plan[k] == pre[k]);
                } else {
                    assert(plan[plan.len() - 1] == m);
                }
            }
        }
    }
}

/// One window per distinct monitor position: the labels of the planned
/// windows are pairwise distinct, and none of them is the main window's
/// label, so every created window gets a registry entry of its own.
pub proof fn lemma_plan_labels_distinct(main: MonitorInfo, s: Seq<MonitorInfo>)
    ensures
        forall|i: int|
            0 <= i < plan_seq(main, s).len() ==> identity_spec(
                Some(#[trigger] plan_seq(main, s)[i]),
            ) != main_label(),
        forall|i: int, j: int|
            0 <= i < j < plan_seq(main, s).len() ==> identity_spec(
                Some(#[trigger] plan_seq(main, s)[i]),
            ) != identity_spec(Some(#[trigger] plan_seq(main, s)[j])),
{
    lemma_plan_origins_distinct(main, s);
    let plan = plan_seq(main, s);
    assert forall|i: int| 0 <= i < plan.len() implies identity_spec(Some(#[trigger] plan[i]))
        != main_label() by {
        let m = plan[i];
        lemma_main_label_distinct(m.x as int, m.y as int, m.width as int, m.height as int);
    }
    assert forall|i: int, j: int| 0 <= i < j < plan.len() implies identity_spec(
        Some(#[trigger] plan[i]),
    ) != identity_spec(Some(#[trigger] plan[j])) by {
        lemma_identity_injective_over_origin(plan[i], plan[j]);
    }
}

/// The registry writes a whole bootstrap performs, in order: the main window
/// first, under the main label with the monitor it landed on, then one write
/// per selected monitor under that monitor's label.
pub open spec fn bootstrap_batch(main_mon: MonitorInfo, s: Seq<MonitorInfo>) -> Seq<
    (Seq<char>, MonitorInfo),
> {
    seq![(main_label(), main_mon)] + plan_seq(main_mon, s).map(
        |i: int, m: MonitorInfo| (identity_spec(Some(m)), m),
    )
}

/// Every window a bootstrap creates gets exactly one registry entry: after
/// the whole sequence of writes, the main label maps to the main window's
/// monitor and each selected monitor's label maps to that monitor — no write
/// shadows another, whatever the registry held before.
pub proof fn lemma_bootstrap_registry(
    r: Map<Seq<char>, MonitorInfo>,
    main_mon: MonitorInfo,
    s: Seq<MonitorInfo>,
)
    ensures
        insert_all(r, bootstrap_batch(main_mon, s)).contains_key(main_label()),
        insert_all(r, bootstrap_batch(main_mon, s))[main_label()] == main_mon,
        forall|k: int|
            0 <= k < plan_seq(main_mon, s).len() ==> insert_all(
                r,
                bootstrap_batch(main_mon, s),
            ).contains_key(identity_spec(Some(#[trigger] plan_seq(main_mon, s)[k]))) && insert_all(
                r,
                bootstrap_batch(main_mon, s),
            )[identity_spec(Some(plan_seq(main_mon, s)[k]))] == plan_seq(main_mon, s)[k],
{
    let plan = plan_seq(main_mon, s);
    let batch = bootstrap_batch(main_mon, s);
    lemma_plan_labels_distinct(main_mon, s);
    assert(batch.len() == plan.len() + 1);
    assert(batch[0] == (main_label(), main_mon));
    assert(forall|k: int|
        0 <= k < plan.len() ==> #[trigger] batch[k + 1] == (identity_spec(Some(plan[k])), plan[k]));
    assert forall|i: int, j: int| 0 <= i < j < batch.len() implies (#[trigger] batch[i]).0 != (
    #[trigger] batch[j]).0 by {
        if i == 0 {
            assert(batch[(j - 1) + 1].0 == identity_spec(Some(plan[j - 1])));
        } else {
            assert(batch[(i - 1) + 1].0 == identity_spec(Some(plan[i - 1])));
            assert(batch[(j - 1) + 1].0 == identity_spec(Some(plan[j - 1])));
        }
    }
    lemma_registry_batch(r, batch);
    assert forall|k: int| 0 <= k < plan.len() implies insert_all(r, batch).contains_key(
        identity_spec(Some(#[trigger] plan[k])),
    ) && insert_all(r, batch)[identity_spec(Some(plan[k]))] == plan[k] by {
        assert(batch[k + 1] == (identity_spec(Some(plan[k])), plan[k]));
        assert(insert_all(r, batch).contains_key(batch[k + 1].0));
    }
}

/// A window's placement in physical units: position and size.
#[derive(Clone, Copy, Debug, PartialEq, Eq, Structural)]
pub struct Placement {
    pub x: i32,
    pub y: i32,
    pub width: u32,
    pub height: u32,
}

/// The placement a resync must re-apply for the window labelled `label`: the
/// recorded monitor's physical origin and size, or nothing when the label was
/// never registered.
pub open spec fn resync_spec(reg: Map<Seq<char>, MonitorInfo>, label: Seq<char>) -> Option<
    Placement,
> {
    if reg.contains_key(label) {
        Some(
            Placement {
                x: reg[label].x,
                y: reg[label].y,
                width: reg[label].width,
                height: reg[label].height,
            },
        )
    } else {
        None
    }
}

/// Looks up the invoking window's label in the registry and returns the
/// placement to re-apply: exactly the recorded monitor's physical origin and
/// size. An unregistered label yields `None` — a quiet no-op, not an error.
pub fn resync_target(reg: &WindowPositions, label: &str) -> (r: Option<Placement>)
    ensures
        r == resync_spec(reg@, label@),
{
    match reg.get(label) {
        Some(m) => Some(Placement { x: m.x, y: m.y, width: m.width, height: m.height }),
        None => None,
    }
}

/// The placement a window ends up with after one resync: the registry's
/// target if its label is registered, its current placement otherwise.
pub open spec fn after_resync(
    reg: Map<Seq<char>, MonitorInfo>,
    label: Seq<char>,
    current: Placement,
) -> Placement {
    match resync_spec(reg, label) {
        Some(p) => p,
        None => current,
    }
}

/// Resync is idempotent: with no intervening registry change, a second
/// resync of the same window re-applies exactly the placement the first one
/// did.
pub proof fn lemma_resync_idempotent(
    reg: Map<Seq<char>, MonitorInfo>,
    label: Seq<char>,
    current: Placement,
)
    ensures
        after_resync(reg, label, after_resync(reg, label, current)) == after_resync(
            reg,
            label,
            current,
        ),
{
}

} // verus!
