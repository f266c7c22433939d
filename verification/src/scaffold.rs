//! Default scaffolding: the document returned when a logical name has no
//! file on disk yet. The choice goes by the suffix of the logical name,
//! as the store has always matched it; the default is returned, never
//! written to disk.

use vstd::prelude::*;

use crate::json::{jview, jview_pairs, jview_seq, Json, JsonV};
use crate::scaffold_keys::{k_blocked, k_blocked_x, k_budget_headroom, k_budget_headroom_x, k_capacity_fit, k_capacity_fit_x, k_columns, k_columns_x, k_due_within_hours_priority, k_due_within_hours_priority_x, k_focus_mode_on_accept, k_focus_mode_on_accept_x, k_hard_limits, k_hard_limits_x, k_mode, k_mode_x, k_over_budget, k_over_budget_x, k_penalties, k_penalties_x, k_priority, k_priority_x, k_tasks, k_tasks_x, k_urgency, k_urgency_x, k_version, k_version_x, k_weights, k_weights_x, k_wip_per_owner, k_wip_per_owner_x, n_settings_json, n_settings_json_x, n_tasks_json, n_tasks_json_x, s_col_blocked, s_col_blocked_x, s_col_done, s_col_done_x, s_col_later, s_col_later_x, s_col_next, s_col_next_x, s_col_now, s_col_now_x, s_rule, s_rule_x};

verus! {

/// `s` ends with `sfx`.
pub open spec fn ends_with(s: Seq<u8>, sfx: Seq<u8>) -> bool {
    s.len() >= sfx.len() && s.subrange(s.len() - sfx.len(), s.len() as int) == sfx
}

/// Decides `ends_with`.
#[verifier::loop_isolation(false)]
pub fn ends_with_x(s: &Vec<u8>, sfx: &Vec<u8>) -> (r: bool)
    ensures
        r == ends_with(s@, sfx@),
{
    if s.len() < sfx.len() {
        return false;
    }
    let base = s.len() - sfx.len();
    let mut k: usize = 0;
    while k < sfx.len()
        invariant
            base == s@.len() - sfx@.len(),
            k <= sfx@.len(),
            forall|q: int| 0 <= q < k ==> s@[base + q] == sfx@[q],
        decreases sfx@.len() - k,
    {
        if s[base + k] != sfx[k] {
            proof {
                let kk = k as int;
                assert(s@.subrange(s@.len() - sfx@.len(), s@.len() as int)[kk] != sfx@[kk]);
            }
            return false;
        }
        k = k + 1;
    }
    proof {
        assert(s@.subrange(s@.len() - sfx@.len(), s@.len() as int) =~= sfx@);
    }
    true
}

/// The integer `m` as a document number.
pub open spec fn num_i(m: u64) -> JsonV {
    JsonV::Num { neg: false, mantissa: m, scale: 0 }
}

/// The decimal `m / 10^sc` as a document number.
pub open spec fn num_d(m: u64, sc: u32) -> JsonV {
    JsonV::Num { neg: false, mantissa: m, scale: sc }
}

/// The default task list: `{"version": 1, "tasks": []}`.
pub open spec fn tasks_default() -> JsonV {
    JsonV::Obj(seq![(k_version(), num_i(1)), (k_tasks(), JsonV::Arr(Seq::empty()))])
}

/// The `hard_limits` object of the default settings.
pub open spec fn hard_limits_default() -> JsonV {
    JsonV::Obj(
        seq![(k_wip_per_owner(), num_i(1)), (k_due_within_hours_priority(), num_i(24))],
    )
}

/// The `weights` object of the default settings; the four weights sum
/// to one.
pub open spec fn weights_default() -> JsonV {
    JsonV::Obj(
        seq![
            (k_priority(), num_d(45, 2)),
            (k_urgency(), num_d(35, 2)),
            (k_capacity_fit(), num_d(10, 2)),
            (k_budget_headroom(), num_d(10, 2)),
        ],
    )
}

/// The `penalties` object of the default settings.
pub open spec fn penalties_default() -> JsonV {
    JsonV::Obj(seq![(k_blocked(), num_d(20, 1)), (k_over_budget(), num_d(10, 1))])
}

/// The `columns` list of the default settings: the five fixed stages.
pub open spec fn columns_default() -> JsonV {
    JsonV::Arr(
        seq![
            JsonV::Str(s_col_now()),
            JsonV::Str(s_col_next()),
            JsonV::Str(s_col_later()),
            JsonV::Str(s_col_blocked()),
            JsonV::Str(s_col_done()),
        ],
    )
}

/// The full default settings document.
pub open spec fn settings_default() -> JsonV {
    JsonV::Obj(
        seq![
            (k_version(), num_i(1)),
            (k_mode(), JsonV::Str(s_rule())),
            (k_hard_limits(), hard_limits_default()),
            (k_weights(), weights_default()),
            (k_penalties(), penalties_default()),
            (k_focus_mode_on_accept(), JsonV::Bool(true)),
            (k_columns(), columns_default()),
        ],
    )
}

/// What `load` returns for a logical name with no file: the task-list
/// envelope for names ending in `tasks.json`, the default settings for
/// names ending in `settings.json`, an empty sequence otherwise.
pub open spec fn scaffold_spec(name: Seq<u8>) -> JsonV {
    if ends_with(name, n_tasks_json()) {
        tasks_default()
    } else if ends_with(name, n_settings_json()) {
        settings_default()
    } else {
        JsonV::Arr(Seq::empty())
    }
}

/// Builds the default task list.
fn tasks_default_x() -> (r: Json)
    ensures
        r@ == tasks_default(),
{
    let mut m: Vec<(Vec<u8>, Json)> = Vec::new();
    m.push((k_version_x(), Json::Num { neg: false, mantissa: 1, scale: 0 }));
    m.push((k_tasks_x(), Json::Arr(Vec::new())));
    proof {
        let mv = m@;
        crate::json::lemma_jview_pairs(mv);
        assert(mv[0].0@ == k_version() && jview(mv[0].1) == num_i(1));
        assert(mv[1].0@ == k_tasks() && jview(mv[1].1) == JsonV::Arr(Seq::empty()));
        assert(jview_pairs(mv) =~= seq![(k_version(), num_i(1)), (
            k_tasks(),
            JsonV::Arr(Seq::empty()),
        )]);
    }
    Json::Obj(m)
}

/// Builds the `hard_limits` object.
fn hard_limits_x() -> (r: Json)
    ensures
        r@ == hard_limits_default(),
{
    let mut m: Vec<(Vec<u8>, Json)> = Vec::new();
    m.push((k_wip_per_owner_x(), Json::Num { neg: false, mantissa: 1, scale: 0 }));
    m.push((k_due_within_hours_priority_x(), Json::Num { neg: false, mantissa: 24, scale: 0 }));
    proof {
        let mv = m@;
        crate::json::lemma_jview_pairs(mv);
        assert(mv[0].0@ == k_wip_per_owner() && jview(mv[0].1) == num_i(1));
        assert(mv[1].0@ == k_due_within_hours_priority() && jview(mv[1].1) == num_i(24));
        assert(jview_pairs(mv) =~= seq![(k_wip_per_owner(), num_i(1)), (
            k_due_within_hours_priority(),
            num_i(24),
        )]);
    }
    Json::Obj(m)
}

/// Builds the `weights` object.
fn weights_x() -> (r: Json)
    ensures
        r@ == weights_default(),
{
    let mut m: Vec<(Vec<u8>, Json)> = Vec::new();
    m.push((k_priority_x(), Json::Num { neg: false, mantissa: 45, scale: 2 }));
    m.push((k_urgency_x(), Json::Num { neg: false, mantissa: 35, scale: 2 }));
    m.push((k_capacity_fit_x(), Json::Num { neg: false, mantissa: 10, scale: 2 }));
    m.push((k_budget_headroom_x(), Json::Num { neg: false, mantissa: 10, scale: 2 }));
    proof {
        let mv = m@;
        crate::json::lemma_jview_pairs(mv);
        assert(mv[0].0@ == k_priority() && jview(mv[0].1) == num_d(45, 2));
        assert(mv[1].0@ == k_urgency() && jview(mv[1].1) == num_d(35, 2));
        assert(mv[2].0@ == k_capacity_fit() && jview(mv[2].1) == num_d(10, 2));
        assert(mv[3].0@ == k_budget_headroom() && jview(mv[3].1) == num_d(10, 2));
        assert(jview_pairs(mv) =~= seq![
            (k_priority(), num_d(45, 2)),
            (k_urgency(), num_d(35, 2)),
            (k_capacity_fit(), num_d(10, 2)),
            (k_budget_headroom(), num_d(10, 2)),
        ]);
    }
    Json::Obj(m)
}

/// Builds the `penalties` object.
fn penalties_x() -> (r: Json)
    ensures
        r@ == penalties_default(),
{
    let mut m: Vec<(Vec<u8>, Json)> = Vec::new();
    m.push((k_blocked_x(), Json::Num { neg: false, mantissa: 20, scale: 1 }));
    m.push((k_over_budget_x(), Json::Num { neg: false, mantissa: 10, scale: 1 }));
    proof {
        let mv = m@;
        crate::json::lemma_jview_pairs(mv);
        assert(mv[0].0@ == k_blocked() && jview(mv[0].1) == num_d(20, 1));
        assert(mv[1].0@ == k_over_budget() && jview(mv[1].1) == num_d(10, 1));
        assert(jview_pairs(mv) =~= seq![(k_blocked(), num_d(20, 1)), (
            k_over_budget(),
            num_d(10, 1),
        )]);
    }
    Json::Obj(m)
}

/// Builds the `columns` list.
fn columns_x() -> (r: Json)
    ensures
        r@ == columns_default(),
{
    let mut a: Vec<Json> = Vec::new();
    a.push(Json::Str(s_col_now_x()));
    a.push(Json::Str(s_col_next_x()));
    a.push(Json::Str(s_col_later_x()));
    a.push(Json::Str(s_col_blocked_x()));
    a.push(Json::Str(s_col_done_x()));
    proof {
        let av = a@;
        crate::json::lemma_jview_seq(av);
        assert(jview(av[0]) == JsonV::Str(s_col_now()));
        assert(jview(av[1]) == JsonV::Str(s_col_next()));
        assert(jview(av[2]) == JsonV::Str(s_col_later()));
        assert(jview(av[3]) == JsonV::Str(s_col_blocked()));
        assert(jview(av[4]) == JsonV::Str(s_col_done()));
        assert(jview_seq(av) =~= seq![
            JsonV::Str(s_col_now()),
            JsonV::Str(s_col_next()),
            JsonV::Str(s_col_later()),
            JsonV::Str(s_col_blocked()),
            JsonV::Str(s_col_done()),
        ]);
    }
    Json::Arr(a)
}

/// Builds the full default settings document.
fn settings_default_x() -> (r: Json)
    ensures
        r@ == settings_default(),
{
    let mut m: Vec<(Vec<u8>, Json)> = Vec::new();
    m.push((k_version_x(), Json::Num { neg: false, mantissa: 1, scale: 0 }));
    m.push((k_mode_x(), Json::Str(s_rule_x())));
    m.push((k_hard_limits_x(), hard_limits_x()));
    m.push((k_weights_x(), weights_x()));
    m.push((k_penalties_x(), penalties_x()));
    m.push((k_focus_mode_on_accept_x(), Json::Bool(true)));
    m.push((k_columns_x(), columns_x()));
    proof {
        let mv = m@;
        crate::json::lemma_jview_pairs(mv);
        assert(mv[0].0@ == k_version() && jview(mv[0].1) == num_i(1));
        assert(mv[1].0@ == k_mode() && jview(mv[1].1) == JsonV::Str(s_rule()));
        assert(mv[2].0@ == k_hard_limits() && jview(mv[2].1) == hard_limits_default());
        assert(mv[3].0@ == k_weights() && jview(mv[3].1) == weights_default());
        assert(mv[4].0@ == k_penalties() && jview(mv[4].1) == penalties_default());
        assert(mv[5].0@ == k_focus_mode_on_accept() && jview(mv[5].1) == JsonV::Bool(true));
        assert(mv[6].0@ == k_columns() && jview(mv[6].1) == columns_default());
        assert(jview_pairs(mv) =~= seq![
            (k_version(), num_i(1)),
            (k_mode(), JsonV::Str(s_rule())),
            (k_hard_limits(), hard_limits_default()),
            (k_weights(), weights_default()),
            (k_penalties(), penalties_default()),
            (k_focus_mode_on_accept(), JsonV::Bool(true)),
            (k_columns(), columns_default()),
        ]);
    }
    Json::Obj(m)
}

/// The default document for a logical name with no file yet.
pub fn scaffold_for(name: &Vec<u8>) -> (r: Json)
    ensures
        r@ == scaffold_spec(name@),
{
    let tj = n_tasks_json_x();
    if ends_with_x(name, &tj) {
        tasks_default_x()
    } else {
        let sj = n_settings_json_x();
        if ends_with_x(name, &sj) {
            settings_default_x()
        } else {
            proof {
                assert(jview_seq(Seq::<Json>::empty()) =~= Seq::<JsonV>::empty());
            }
            Json::Arr(Vec::new())
        }
    }
}

/// Every scaffold is a valid document.
pub proof fn lemma_scaffold_valid(name: Seq<u8>)
    ensures
        crate::json::valid_v(scaffold_spec(name)),
{
    assert(crate::json::valid_v(tasks_default())) by {
        let ms = tasks_default()->Obj_0;
        assert forall|q: int| 0 <= q < ms.len() implies crate::json::valid_v(#[trigger] ms[q].1) by {
            if q == 0 {
                assert(ms[q].1 == num_i(1));
            } else {
                assert(ms[q].1 == JsonV::Arr(Seq::<JsonV>::empty()));
            }
        }
    }
    assert(crate::json::valid_v(hard_limits_default())) by {
        let ms = hard_limits_default()->Obj_0;
        assert forall|q: int| 0 <= q < ms.len() implies crate::json::valid_v(#[trigger] ms[q].1) by {
            if q == 0 {
                assert(ms[q].1 == num_i(1));
            } else {
                assert(ms[q].1 == num_i(24));
            }
        }
    }
    assert(crate::json::valid_v(weights_default())) by {
        let ms = weights_default()->Obj_0;
        assert forall|q: int| 0 <= q < ms.len() implies crate::json::valid_v(#[trigger] ms[q].1) by {
            assert(ms[q].1 is Num && !ms[q].1->neg);
        }
    }
    assert(crate::json::valid_v(penalties_default())) by {
        let ms = penalties_default()->Obj_0;
        assert forall|q: int| 0 <= q < ms.len() implies crate::json::valid_v(#[trigger] ms[q].1) by {
            assert(ms[q].1 is Num && !ms[q].1->neg);
        }
    }
    assert(crate::json::valid_v(columns_default())) by {
        let es = columns_default()->Arr_0;
        assert forall|q: int| 0 <= q < es.len() implies crate::json::valid_v(#[trigger] es[q]) by {
            assert(es[q] is Str);
        }
    }
    assert(crate::json::valid_v(settings_default())) by {
        let ms = settings_default()->Obj_0;
        assert forall|q: int| 0 <= q < ms.len() implies crate::json::valid_v(#[trigger] ms[q].1) by {
            if q == 0 {
                assert(ms[q].1 == num_i(1));
            } else if q == 1 {
                assert(ms[q].1 == JsonV::Str(s_rule()));
            } else if q == 2 {
                assert(ms[q].1 == hard_limits_default());
            } else if q == 3 {
                assert(ms[q].1 == weights_default());
            } else if q == 4 {
                assert(ms[q].1 == penalties_default());
            } else if q == 5 {
                assert(ms[q].1 == JsonV::Bool(true));
            } else {
                assert(ms[q].1 == columns_default());
            }
        }
    }
    assert(crate::json::valid_v(JsonV::Arr(Seq::<JsonV>::empty())));
}

} // verus!
