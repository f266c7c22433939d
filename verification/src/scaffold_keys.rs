//! The byte strings that the default documents and the suffix rules are
//! made of.

use vstd::prelude::*;

verus! {

/// The bytes of `"version"`.
pub open spec fn k_version() -> Seq<u8> {
    seq![118u8, 101u8, 114u8, 115u8, 105u8, 111u8, 110u8]
}

/// The bytes of `"version"` as a value.
pub fn k_version_x() -> (r: Vec<u8>)
    ensures
        r@ == k_version(),
{
    let mut v: Vec<u8> = Vec::new();
    v.push(118);
    v.push(101);
    v.push(114);
    v.push(115);
    v.push(105);
    v.push(111);
    v.push(110);
    proof {
        assert(v@ =~= k_version());
    }
    v
}

/// The bytes of `"tasks"`.
pub open spec fn k_tasks() -> Seq<u8> {
    seq![116u8, 97u8, 115u8, 107u8, 115u8]
}

/// The bytes of `"tasks"` as a value.
pub fn k_tasks_x() -> (r: Vec<u8>)
    ensures
        r@ == k_tasks(),
{
    let mut v: Vec<u8> = Vec::new();
    v.push(116);
    v.push(97);
    v.push(115);
    v.push(107);
    v.push(115);
    proof {
        assert(v@ =~= k_tasks());
    }
    v
}

/// The bytes of `"mode"`.
pub open spec fn k_mode() -> Seq<u8> {
    seq![109u8, 111u8, 100u8, 101u8]
}

/// The bytes of `"mode"` as a value.
pub fn k_mode_x() -> (r: Vec<u8>)
    ensures
        r@ == k_mode(),
{
    let mut v: Vec<u8> = Vec::new();
    v.push(109);
    v.push(111);
    v.push(100);
    v.push(101);
    proof {
        assert(v@ =~= k_mode());
    }
    v
}

/// The bytes of `"rule"`.
pub open spec fn s_rule() -> Seq<u8> {
    seq![114u8, 117u8, 108u8, 101u8]
}

/// The bytes of `"rule"` as a value.
pub fn s_rule_x() -> (r: Vec<u8>)
    ensures
        r@ == s_rule(),
{
    let mut v: Vec<u8> = Vec::new();
    v.push(114);
    v.push(117);
    v.push(108);
    v.push(101);
    proof {
        assert(v@ =~= s_rule());
    }
    v
}

/// The bytes of `"hard_limits"`.
pub open spec fn k_hard_limits() -> Seq<u8> {
    seq![104u8, 97u8, 114u8, 100u8, 95u8, 108u8, 105u8, 109u8, 105u8, 116u8, 115u8]
}

/// The bytes of `"hard_limits"` as a value.
pub fn k_hard_limits_x() -> (r: Vec<u8>)
    ensures
        r@ == k_hard_limits(),
{
    let mut v: Vec<u8> = Vec::new();
    v.push(104);
    v.push(97);
    v.push(114);
    v.push(100);
    v.push(95);
    v.push(108);
    v.push(105);
    v.push(109);
    v.push(105);
    v.push(116);
    v.push(115);
    proof {
        assert(v@ =~= k_hard_limits());
    }
    v
}

/// The bytes of `"wip_per_owner"`.
pub open spec fn k_wip_per_owner() -> Seq<u8> {
    seq![119u8, 105u8, 112u8, 95u8, 112u8, 101u8, 114u8, 95u8, 111u8, 119u8, 110u8, 101u8, 114u8]
}

/// The bytes of `"wip_per_owner"` as a value.
pub fn k_wip_per_owner_x() -> (r: Vec<u8>)
    ensures
        r@ == k_wip_per_owner(),
{
    let mut v: Vec<u8> = Vec::new();
    v.push(119);
    v.push(105);
    v.push(112);
    v.push(95);
    v.push(112);
    v.push(101);
    v.push(114);
    v.push(95);
    v.push(111);
    v.push(119);
    v.push(110);
    v.push(101);
    v.push(114);
    proof {
        assert(v@ =~= k_wip_per_owner());
    }
    v
}

/// The bytes of `"due_within_hours_priority"`.
pub open spec fn k_due_within_hours_priority() -> Seq<u8> {
    seq![100u8, 117u8, 101u8, 95u8, 119u8, 105u8, 116u8, 104u8, 105u8, 110u8, 95u8, 104u8, 111u8, 117u8, 114u8, 115u8, 95u8, 112u8, 114u8, 105u8, 111u8, 114u8, 105u8, 116u8, 121u8]
}

/// The bytes of `"due_within_hours_priority"` as a value.
pub fn k_due_within_hours_priority_x() -> (r: Vec<u8>)
    ensures
        r@ == k_due_within_hours_priority(),
{
    let mut v: Vec<u8> = Vec::new();
    v.push(100);
    v.push(117);
    v.push(101);
    v.push(95);
    v.push(119);
    v.push(105);
    v.push(116);
    v.push(104);
    v.push(105);
    v.push(110);
    v.push(95);
    v.push(104);
    v.push(111);
    v.push(117);
    v.push(114);
    v.push(115);
    v.push(95);
    v.push(112);
    v.push(114);
    v.push(105);
    v.push(111);
    v.push(114);
    v.push(105);
    v.push(116);
    v.push(121);
    proof {
        assert(v@ =~= k_due_within_hours_priority());
    }
    v
}

/// The bytes of `"weights"`.
pub open spec fn k_weights() -> Seq<u8> {
    seq![119u8, 101u8, 105u8, 103u8, 104u8, 116u8, 115u8]
}

/// The bytes of `"weights"` as a value.
pub fn k_weights_x() -> (r: Vec<u8>)
    ensures
        r@ == k_weights(),
{
    let mut v: Vec<u8> = Vec::new();
    v.push(119);
    v.push(101);
    v.push(105);
    v.push(103);
    v.push(104);
    v.push(116);
    v.push(115);
    proof {
        assert(v@ =~= k_weights());
    }
    v
}

/// The bytes of `"priority"`.
pub open spec fn k_priority() -> Seq<u8> {
    seq![112u8, 114u8, 105u8, 111u8, 114u8, 105u8, 116u8, 121u8]
}

/// The bytes of `"priority"` as a value.
pub fn k_priority_x() -> (r: Vec<u8>)
    ensures
        r@ == k_priority(),
{
    let mut v: Vec<u8> = Vec::new();
    v.push(112);
    v.push(114);
    v.push(105);
    v.push(111);
    v.push(114);
    v.push(105);
    v.push(116);
    v.push(121);
    proof {
        assert(v@ =~= k_priority());
    }
    v
}

/// The bytes of `"urgency"`.
pub open spec fn k_urgency() -> Seq<u8> {
    seq![117u8, 114u8, 103u8, 101u8, 110u8, 99u8, 121u8]
}

/// The bytes of `"urgency"` as a value.
pub fn k_urgency_x() -> (r: Vec<u8>)
    ensures
        r@ == k_urgency(),
{
    let mut v: Vec<u8> = Vec::new();
    v.push(117);
    v.push(114);
    v.push(103);
    v.push(101);
    v.push(110);
    v.push(99);
    v.push(121);
    proof {
        assert(v@ =~= k_urgency());
    }
    v
}

/// The bytes of `"capacity_fit"`.
pub open spec fn k_capacity_fit() -> Seq<u8> {
    seq![99u8, 97u8, 112u8, 97u8, 99u8, 105u8, 116u8, 121u8, 95u8, 102u8, 105u8, 116u8]
}

/// The bytes of `"capacity_fit"` as a value.
pub fn k_capacity_fit_x() -> (r: Vec<u8>)
    ensures
        r@ == k_capacity_fit(),
{
    let mut v: Vec<u8> = Vec::new();
    v.push(99);
    v.push(97);
    v.push(112);
    v.push(97);
    v.push(99);
    v.push(105);
    v.push(116);
    v.push(121);
    v.push(95);
    v.push(102);
    v.push(105);
    v.push(116);
    proof {
        assert(v@ =~= k_capacity_fit());
    }
    v
}

/// The bytes of `"budget_headroom"`.
pub open spec fn k_budget_headroom() -> Seq<u8> {
    seq![98u8, 117u8, 100u8, 103u8, 101u8, 116u8, 95u8, 104u8, 101u8, 97u8, 100u8, 114u8, 111u8, 111u8, 109u8]
}

/// The bytes of `"budget_headroom"` as a value.
pub fn k_budget_headroom_x() -> (r: Vec<u8>)
    ensures
        r@ == k_budget_headroom(),
{
    let mut v: Vec<u8> = Vec::new();
    v.push(98);
    v.push(117);
    v.push(100);
    v.push(103);
    v.push(101);
    v.push(116);
    v.push(95);
    v.push(104);
    v.push(101);
    v.push(97);
    v.push(100);
    v.push(114);
    v.push(111);
    v.push(111);
    v.push(109);
    proof {
        assert(v@ =~= k_budget_headroom());
    }
    v
}

/// The bytes of `"penalties"`.
pub open spec fn k_penalties() -> Seq<u8> {
    seq![112u8, 101u8, 110u8, 97u8, 108u8, 116u8, 105u8, 101u8, 115u8]
}

/// The bytes of `"penalties"` as a value.
pub fn k_penalties_x() -> (r: Vec<u8>)
    ensures
        r@ == k_penalties(),
{
    let mut v: Vec<u8> = Vec::new();
    v.push(112);
    v.push(101);
    v.push(110);
    v.push(97);
    v.push(108);
    v.push(116);
    v.push(105);
    v.push(101);
    v.push(115);
    proof {
        assert(v@ =~= k_penalties());
    }
    v
}

/// The bytes of `"blocked"`.
pub open spec fn k_blocked() -> Seq<u8> {
    seq![98u8, 108u8, 111u8, 99u8, 107u8, 101u8, 100u8]
}

/// The bytes of `"blocked"` as a value.
pub fn k_blocked_x() -> (r: Vec<u8>)
    ensures
        r@ == k_blocked(),
{
    let mut v: Vec<u8> = Vec::new();
    v.push(98);
    v.push(108);
    v.push(111);
    v.push(99);
    v.push(107);
    v.push(101);
    v.push(100);
    proof {
        assert(v@ =~= k_blocked());
    }
    v
}

/// The bytes of `"over_budget"`.
pub open spec fn k_over_budget() -> Seq<u8> {
    seq![111u8, 118u8, 101u8, 114u8, 95u8, 98u8, 117u8, 100u8, 103u8, 101u8, 116u8]
}

/// The bytes of `"over_budget"` as a value.
pub fn k_over_budget_x() -> (r: Vec<u8>)
    ensures
        r@ == k_over_budget(),
{
    let mut v: Vec<u8> = Vec::new();
    v.push(111);
    v.push(118);
    v.push(101);
    v.push(114);
    v.push(95);
    v.push(98);
    v.push(117);
    v.push(100);
    v.push(103);
    v.push(101);
    v.push(116);
    proof {
        assert(v@ =~= k_over_budget());
    }
    v
}

/// The bytes of `"focus_mode_on_accept"`.
pub open spec fn k_focus_mode_on_accept() -> Seq<u8> {
    seq![102u8, 111u8, 99u8, 117u8, 115u8, 95u8, 109u8, 111u8, 100u8, 101u8, 95u8, 111u8, 110u8, 95u8, 97u8, 99u8, 99u8, 101u8, 112u8, 116u8]
}

/// The bytes of `"focus_mode_on_accept"` as a value.
pub fn k_focus_mode_on_accept_x() -> (r: Vec<u8>)
    ensures
        r@ == k_focus_mode_on_accept(),
{
    let mut v: Vec<u8> = Vec::new();
    v.push(102);
    v.push(111);
    v.push(99);
    v.push(117);
    v.push(115);
    v.push(95);
    v.push(109);
    v.push(111);
    v.push(100);
    v.push(101);
    v.push(95);
    v.push(111);
    v.push(110);
    v.push(95);
    v.push(97);
    v.push(99);
    v.push(99);
    v.push(101);
    v.push(112);
    v.push(116);
    proof {
        assert(v@ =~= k_focus_mode_on_accept());
    }
    v
}

/// The bytes of `"columns"`.
pub open spec fn k_columns() -> Seq<u8> {
    seq![99u8, 111u8, 108u8, 117u8, 109u8, 110u8, 115u8]
}

/// The bytes of `"columns"` as a value.
pub fn k_columns_x() -> (r: Vec<u8>)
    ensures
        r@ == k_columns(),
{
    let mut v: Vec<u8> = Vec::new();
    v.push(99);
    v.push(111);
    v.push(108);
    v.push(117);
    v.push(109);
    v.push(110);
    v.push(115);
    proof {
        assert(v@ =~= k_columns());
    }
    v
}

/// The bytes of `"Now"`.
pub open spec fn s_col_now() -> Seq<u8> {
    seq![78u8, 111u8, 119u8]
}

/// The bytes of `"Now"` as a value.
pub fn s_col_now_x() -> (r: Vec<u8>)
    ensures
        r@ == s_col_now(),
{
    let mut v: Vec<u8> = Vec::new();
    v.push(78);
    v.push(111);
    v.push(119);
    proof {
        assert(v@ =~= s_col_now());
    }
    v
}

/// The bytes of `"Next"`.
pub open spec fn s_col_next() -> Seq<u8> {
    seq![78u8, 101u8, 120u8, 116u8]
}

/// The bytes of `"Next"` as a value.
pub fn s_col_next_x() -> (r: Vec<u8>)
    ensures
        r@ == s_col_next(),
{
    let mut v: Vec<u8> = Vec::new();
    v.push(78);
    v.push(101);
    v.push(120);
    v.push(116);
    proof {
        assert(v@ =~= s_col_next());
    }
    v
}

/// The bytes of `"Later"`.
pub open spec fn s_col_later() -> Seq<u8> {
    seq![76u8, 97u8, 116u8, 101u8, 114u8]
}

/// The bytes of `"Later"` as a value.
pub fn s_col_later_x() -> (r: Vec<u8>)
    ensures
        r@ == s_col_later(),
{
    let mut v: Vec<u8> = Vec::new();
    v.push(76);
    v.push(97);
    v.push(116);
    v.push(101);
    v.push(114);
    proof {
        assert(v@ =~= s_col_later());
    }
    v
}

/// The bytes of `"Blocked"`.
pub open spec fn s_col_blocked() -> Seq<u8> {
    seq![66u8, 108u8, 111u8, 99u8, 107u8, 101u8, 100u8]
}

/// The bytes of `"Blocked"` as a value.
pub fn s_col_blocked_x() -> (r: Vec<u8>)
    ensures
        r@ == s_col_blocked(),
{
    let mut v: Vec<u8> = Vec::new();
    v.push(66);
    v.push(108);
    v.push(111);
    v.push(99);
    v.push(107);
    v.push(101);
    v.push(100);
    proof {
        assert(v@ =~= s_col_blocked());
    }
    v
}

/// The bytes of `"Done"`.
pub open spec fn s_col_done() -> Seq<u8> {
    seq![68u8, 111u8, 110u8, 101u8]
}

/// The bytes of `"Done"` as a value.
pub fn s_col_done_x() -> (r: Vec<u8>)
    ensures
        r@ == s_col_done(),
{
    let mut v: Vec<u8> = Vec::new();
    v.push(68);
    v.push(111);
    v.push(110);
    v.push(101);
    proof {
        assert(v@ =~= s_col_done());
    }
    v
}

/// The bytes of `"tasks.json"`.
pub open spec fn n_tasks_json() -> Seq<u8> {
    seq![116u8, 97u8, 115u8, 107u8, 115u8, 46u8, 106u8, 115u8, 111u8, 110u8]
}

/// The bytes of `"tasks.json"` as a value.
pub fn n_tasks_json_x() -> (r: Vec<u8>)
    ensures
        r@ == n_tasks_json(),
{
    let mut v: Vec<u8> = Vec::new();
    v.push(116);
    v.push(97);
    v.push(115);
    v.push(107);
    v.push(115);
    v.push(46);
    v.push(106);
    v.push(115);
    v.push(111);
    v.push(110);
    proof {
        assert(v@ =~= n_tasks_json());
    }
    v
}

/// The bytes of `"settings.json"`.
pub open spec fn n_settings_json() -> Seq<u8> {
    seq![115u8, 101u8, 116u8, 116u8, 105u8, 110u8, 103u8, 115u8, 46u8, 106u8, 115u8, 111u8, 110u8]
}

/// The bytes of `"settings.json"` as a value.
pub fn n_settings_json_x() -> (r: Vec<u8>)
    ensures
        r@ == n_settings_json(),
{
    let mut v: Vec<u8> = Vec::new();
    v.push(115);
    v.push(101);
    v.push(116);
    v.push(116);
    v.push(105);
    v.push(110);
    v.push(103);
    v.push(115);
    v.push(46);
    v.push(106);
    v.push(115);
    v.push(111);
    v.push(110);
    proof {
        assert(v@ =~= n_settings_json());
    }
    v
}

} // verus!
