use vstd::prelude::*;
use vstd::string::*;

use crate::communication::ThreadMessage;
use crate::config::{names_distinct, ProgramView, _Restart};
use crate::engine::{
    add_actions, added_programs, adds_last, after_signal, autostarted, message_step,
    program_signal_actions, signal_actions, status_lines, exit_kills, exit_step, find_program, has_name,
    kept_after_reload, kill_actions, lemma_find_program, reload_step, reloaded, removed_programs,
    reply, restart_step, start_step, stop_all, stop_step, update_actions, update_actions_of,
    stop_of, ActionView, Reply,
};
use crate::exec::{checked, elapsed_secs, exit_count, min_runtime, location_of, reaped, started, still_running, stopped, ChildWait, ExecutableLocation};
use crate::config::Taskmaster;
use crate::signals::_Signalstopper;
use crate::engine::{autostart_actions, NoticeView};
use crate::shell::{command_of, requests_of, RequestView};
use crate::text::words;
use crate::logger::{clock, level_rank, log_line, logged, Level};
use crate::umask::{octal_u16, strip_octal_prefix};

verus! {

proof fn lemma_kept_names(ps: Seq<ProgramView>, new: Seq<ProgramView>, now: u64, n: Seq<char>)
    ensures
        has_name(kept_after_reload(ps, new, now), n) <==> (has_name(ps, n) && has_name(new, n)),
    decreases ps.len(),
{
    let kept = kept_after_reload(ps, new, now);
    if ps.len() > 0 {
        let pre = ps.drop_last();
        let kpre = kept_after_reload(pre, new, now);
        lemma_kept_names(pre, new, now, n);
        let p = ps.last();
        if has_name(kept, n) {
            let i = choose|i: int| 0 <= i < kept.len() && #[trigger] kept[i].name == n;
            if i < kpre.len() {
                assert(kept[i] == kpre[i]);
                let j = choose|j: int| 0 <= j < pre.len() && #[trigger] pre[j].name == n;
                assert(ps[j] == pre[j]);
            } else {
                assert(has_name(new, p.name));
                assert(kept == kpre.push(reloaded(p, new, now)));
                assert(kept[i] == reloaded(p, new, now));
                assert(ps[ps.len() - 1] == p);
                assert(ps[ps.len() - 1].name == n);
            }
        }
        if has_name(ps, n) && has_name(new, n) {
            let j = choose|j: int| 0 <= j < ps.len() && #[trigger] ps[j].name == n;
            if j < pre.len() {
                assert(pre[j] == ps[j]);
                let i = choose|i: int| 0 <= i < kpre.len() && #[trigger] kpre[i].name == n;
                assert(kept[i] == kpre[i]);
            } else {
                assert(p.name == n);
                assert(kept == kpre.push(reloaded(p, new, now)));
                assert(kept[kept.len() - 1] == reloaded(p, new, now));
                assert(kept[kept.len() - 1].name == n);
            }
        }
    }
}

proof fn lemma_added_names(ps: Seq<ProgramView>, new: Seq<ProgramView>, now: u64, n: Seq<char>)
    ensures
        has_name(added_programs(ps, new, now), n) <==> (has_name(new, n) && !has_name(ps, n)),
    decreases new.len(),
{
    let added = added_programs(ps, new, now);
    if new.len() > 0 {
        let pre = new.drop_last();
        let apre = added_programs(ps, pre, now);
        lemma_added_names(ps, pre, now, n);
        let q = new.last();
        if has_name(added, n) {
            let i = choose|i: int| 0 <= i < added.len() && #[trigger] added[i].name == n;
            if i < apre.len() {
                assert(added[i] == apre[i]);
                let j = choose|j: int| 0 <= j < pre.len() && #[trigger] pre[j].name == n;
                assert(new[j] == pre[j]);
            } else {
                assert(added[i].name == q.name);
                assert(new[new.len() - 1] == q);
            }
        }
        if has_name(new, n) && !has_name(ps, n) {
            let j = choose|j: int| 0 <= j < new.len() && #[trigger] new[j].name == n;
            if has_name(pre, n) {
                let i = choose|i: int| 0 <= i < apre.len() && #[trigger] apre[i].name == n;
                assert(added[i] == apre[i]);
            } else {
                if j < pre.len() {
                    assert(pre[j] == new[j]);
                }
                assert(j == new.len() - 1);
                assert(added[added.len() - 1].name == n);
            }
        }
    }
}

/// After a reload, the supervisor runs exactly the programs that the new
/// configuration names.
pub proof fn law_reload_names(ps: Seq<ProgramView>, new: Seq<ProgramView>, now: u64, n: Seq<char>)
    ensures
        has_name(reload_step(ps, new, now).0, n) <==> has_name(new, n),
{
    let kept = kept_after_reload(ps, new, now);
    let added = added_programs(ps, new, now);
    let all = reload_step(ps, new, now).0;
    assert(all == kept + added);
    lemma_kept_names(ps, new, now, n);
    lemma_added_names(ps, new, now, n);
    if has_name(all, n) {
        let i = choose|i: int| 0 <= i < all.len() && #[trigger] all[i].name == n;
        if i < kept.len() {
            assert(all[i] == kept[i]);
        } else {
            assert(all[i] == added[i - kept.len()]);
        }
    }
    if has_name(kept, n) {
        let i = choose|i: int| 0 <= i < kept.len() && #[trigger] kept[i].name == n;
        assert(all[i] == kept[i]);
    }
    if has_name(added, n) {
        let i = choose|i: int| 0 <= i < added.len() && #[trigger] added[i].name == n;
        assert(all[kept.len() + i] == added[i]);
    }
}

proof fn lemma_kept_distinct(ps: Seq<ProgramView>, new: Seq<ProgramView>, now: u64)
    requires
        names_distinct(ps),
    ensures
        names_distinct(kept_after_reload(ps, new, now)),
    decreases ps.len(),
{
    if ps.len() > 0 {
        let pre = ps.drop_last();
        assert(names_distinct(pre)) by {
            assert forall|i: int, j: int|
                0 <= i < pre.len() && 0 <= j < pre.len() && #[trigger] pre[i].name
                    == #[trigger] pre[j].name implies i == j by {
                assert(ps[i] == pre[i] && ps[j] == pre[j]);
            }
        }
        lemma_kept_distinct(pre, new, now);
        let kpre = kept_after_reload(pre, new, now);
        let kept = kept_after_reload(ps, new, now);
        let p = ps.last();
        if has_name(new, p.name) {
            lemma_kept_names(pre, new, now, p.name);
            assert(!has_name(pre, p.name)) by {
                if has_name(pre, p.name) {
                    let j = choose|j: int| 0 <= j < pre.len() && #[trigger] pre[j].name == p.name;
                    assert(ps[j] == pre[j]);
                    assert(ps[ps.len() - 1] == p);
                }
            }
            assert forall|i: int, j: int|
                0 <= i < kept.len() && 0 <= j < kept.len() && #[trigger] kept[i].name
                    == #[trigger] kept[j].name implies i == j by {
                if i < kpre.len() && j < kpre.len() {
                    assert(kept[i] == kpre[i] && kept[j] == kpre[j]);
                } else if i < kpre.len() {
                    assert(kept[i] == kpre[i]);
                    assert(kept[j].name == p.name);
                } else if j < kpre.len() {
                    assert(kept[j] == kpre[j]);
                    assert(kept[i].name == p.name);
                }
            }
        } else {
            assert(kept == kpre);
        }
    }
}

proof fn lemma_added_distinct(ps: Seq<ProgramView>, new: Seq<ProgramView>, now: u64)
    ensures
        names_distinct(added_programs(ps, new, now)),
    decreases new.len(),
{
    if new.len() > 0 {
        let pre = new.drop_last();
        lemma_added_distinct(ps, pre, now);
        let apre = added_programs(ps, pre, now);
        let added = added_programs(ps, new, now);
        let q = new.last();
        if adds_last(ps, new) {
            lemma_added_names(ps, pre, now, q.name);
            assert forall|i: int, j: int|
                0 <= i < added.len() && 0 <= j < added.len() && #[trigger] added[i].name
                    == #[trigger] added[j].name implies i == j by {
                if i < apre.len() && j < apre.len() {
                    assert(added[i] == apre[i] && added[j] == apre[j]);
                } else if i < apre.len() {
                    assert(added[i] == apre[i]);
                    assert(added[j].name == q.name);
                } else if j < apre.len() {
                    assert(added[j] == apre[j]);
                    assert(added[i].name == q.name);
                }
            }
        } else {
            assert(added == apre);
        }
    }
}

/// A reload keeps the names of the programs distinct when both the current
/// and the new configuration have distinct names.
pub proof fn law_reload_distinct(ps: Seq<ProgramView>, new: Seq<ProgramView>, now: u64)
    requires
        names_distinct(ps),
    ensures
        names_distinct(reload_step(ps, new, now).0),
{
    let kept = kept_after_reload(ps, new, now);
    let added = added_programs(ps, new, now);
    let all = reload_step(ps, new, now).0;
    lemma_kept_distinct(ps, new, now);
    lemma_added_distinct(ps, new, now);
    assert forall|i: int, j: int|
        0 <= i < all.len() && 0 <= j < all.len() && #[trigger] all[i].name == #[trigger] all[j].name
            implies i == j by {
        if i < kept.len() && j < kept.len() {
            assert(all[i] == kept[i] && all[j] == kept[j]);
        } else if i >= kept.len() && j >= kept.len() {
            assert(all[i] == added[i - kept.len()] && all[j] == added[j - kept.len()]);
        } else {
            let (a, b) = if i < kept.len() {
                (i, j)
            } else {
                (j, i)
            };
            assert(all[a] == kept[a]);
            assert(all[b] == added[b - kept.len()]);
            let n = all[a].name;
            lemma_kept_names(ps, new, now, n);
            lemma_added_names(ps, new, now, n);
            assert(has_name(kept, n));
            assert(has_name(added, n));
        }
    }
}

proof fn lemma_kept_configs(ps: Seq<ProgramView>, new: Seq<ProgramView>, now: u64)
    ensures
        forall|i: int|
            0 <= i < kept_after_reload(ps, new, now).len() ==> {
                let p = #[trigger] kept_after_reload(ps, new, now)[i];
                find_program(new, p.name) >= 0 && p.config == new[find_program(new, p.name)].config
            },
    decreases ps.len(),
{
    if ps.len() > 0 {
        let pre = ps.drop_last();
        lemma_kept_configs(pre, new, now);
        let kpre = kept_after_reload(pre, new, now);
        let kept = kept_after_reload(ps, new, now);
        let p = ps.last();
        lemma_find_program(new, p.name);
        assert forall|i: int| 0 <= i < kept.len() implies {
            let k = #[trigger] kept[i];
            find_program(new, k.name) >= 0 && k.config == new[find_program(new, k.name)].config
        } by {
            if i < kpre.len() {
                assert(kept[i] == kpre[i]);
            }
        }
    }
}

proof fn lemma_added_configs(ps: Seq<ProgramView>, new: Seq<ProgramView>, now: u64)
    ensures
        forall|i: int|
            0 <= i < added_programs(ps, new, now).len() ==> {
                let p = #[trigger] added_programs(ps, new, now)[i];
                find_program(new, p.name) >= 0 && p.config == new[find_program(new, p.name)].config
            },
    decreases new.len(),
{
    if new.len() > 0 {
        let pre = new.drop_last();
        lemma_added_configs(ps, pre, now);
        let apre = added_programs(ps, pre, now);
        let added = added_programs(ps, new, now);
        let q = new.last();
        assert forall|i: int| 0 <= i < added.len() implies {
            let a = #[trigger] added[i];
            find_program(new, a.name) >= 0 && a.config == new[find_program(new, a.name)].config
        } by {
            let a = added[i];
            if i < apre.len() {
                assert(a == apre[i]);
                lemma_find_program(pre, a.name);
                let f = find_program(pre, a.name);
                assert(find_program(new, a.name) == f);
                assert(new[f] == pre[f]);
            } else {
                assert(adds_last(ps, new));
                lemma_find_program(pre, q.name);
                assert(find_program(new, q.name) == new.len() - 1);
            }
        }
    }
}

/// After a reload, every program runs with the configuration that the new
/// configuration gives to its name.
pub proof fn law_reload_configs(ps: Seq<ProgramView>, new: Seq<ProgramView>, now: u64, i: int)
    requires
        0 <= i < reload_step(ps, new, now).0.len(),
    ensures
        ({
            let p = reload_step(ps, new, now).0[i];
            find_program(new, p.name) >= 0 && p.config == new[find_program(new, p.name)].config
        }),
{
    let kept = kept_after_reload(ps, new, now);
    let added = added_programs(ps, new, now);
    let all = reload_step(ps, new, now).0;
    lemma_kept_configs(ps, new, now);
    lemma_added_configs(ps, new, now);
    if i < kept.len() {
        assert(all[i] == kept[i]);
    } else {
        assert(all[i] == added[i - kept.len()]);
    }
}

proof fn lemma_kept_contains(ps: Seq<ProgramView>, new: Seq<ProgramView>, now: u64, k: int)
    requires
        0 <= k < ps.len(),
        find_program(new, ps[k].name) >= 0,
        new[find_program(new, ps[k].name)].config == ps[k].config,
    ensures
        kept_after_reload(ps, new, now).contains(ps[k]),
    decreases ps.len(),
{
    let pre = ps.drop_last();
    let kpre = kept_after_reload(pre, new, now);
    let kept = kept_after_reload(ps, new, now);
    lemma_find_program(new, ps[k].name);
    if k < pre.len() {
        assert(pre[k] == ps[k]);
        lemma_kept_contains(pre, new, now, k);
        let j = choose|j: int| 0 <= j < kpre.len() && kpre[j] == ps[k];
        assert(kept[j] == kpre[j]);
    } else {
        assert(ps.last() == ps[k]);
        assert(reloaded(ps[k], new, now) == ps[k]);
        assert(kept[kept.len() - 1] == ps[k]);
    }
}

/// A reload leaves a program whose configuration did not change exactly as it
/// was: same children, same retries, same flags.
pub proof fn law_reload_keeps_unchanged(ps: Seq<ProgramView>, new: Seq<ProgramView>, now: u64, k: int)
    requires
        0 <= k < ps.len(),
        find_program(new, ps[k].name) >= 0,
        new[find_program(new, ps[k].name)].config == ps[k].config,
    ensures
        reload_step(ps, new, now).0.contains(ps[k]),
{
    lemma_kept_contains(ps, new, now, k);
    let kept = kept_after_reload(ps, new, now);
    let all = reload_step(ps, new, now).0;
    let j = choose|j: int| 0 <= j < kept.len() && kept[j] == ps[k];
    assert(all[j] == kept[j]);
}

proof fn lemma_update_actions_stop(ps: Seq<ProgramView>, new: Seq<ProgramView>, k: int)
    requires
        0 <= k < ps.len(),
        ps[k].childs.len() > 0,
        find_program(new, ps[k].name) >= 0,
        new[find_program(new, ps[k].name)].config != ps[k].config,
    ensures
        update_actions(ps, new).contains(stop_of(ps[k])),
    decreases ps.len(),
{
    let pre = ps.drop_last();
    let upre = update_actions(pre, new);
    let u = update_actions(ps, new);
    if k < pre.len() {
        assert(pre[k] == ps[k]);
        lemma_update_actions_stop(pre, new, k);
        let j = choose|j: int| 0 <= j < upre.len() && upre[j] == stop_of(ps[k]);
        assert(u[j] == upre[j]);
    } else {
        assert(ps.last() == ps[k]);
        let own = update_actions_of(ps[k], new);
        assert(own[0] == stop_of(ps[k]));
        assert(u[upre.len() as int] == own[0]);
    }
}

proof fn lemma_removed_contains(ps: Seq<ProgramView>, new: Seq<ProgramView>, k: int)
    requires
        0 <= k < ps.len(),
        !has_name(new, ps[k].name),
    ensures
        removed_programs(ps, new).contains(ps[k]),
    decreases ps.len(),
{
    let pre = ps.drop_last();
    let rpre = removed_programs(pre, new);
    let r = removed_programs(ps, new);
    if k < pre.len() {
        assert(pre[k] == ps[k]);
        lemma_removed_contains(pre, new, k);
        let j = choose|j: int| 0 <= j < rpre.len() && rpre[j] == ps[k];
        assert(r[j] == rpre[j]);
    } else {
        assert(ps.last() == ps[k]);
        assert(r[rpre.len() as int] == ps[k]);
    }
}

proof fn lemma_stop_all_contains(ps: Seq<ProgramView>, k: int)
    requires
        0 <= k < ps.len(),
        ps[k].childs.len() > 0,
    ensures
        stop_all(ps).contains(stop_of(ps[k])),
    decreases ps.len(),
{
    let pre = ps.drop_last();
    let spre = stop_all(pre);
    let s = stop_all(ps);
    if k < pre.len() {
        assert(pre[k] == ps[k]);
        lemma_stop_all_contains(pre, k);
        let j = choose|j: int| 0 <= j < spre.len() && spre[j] == stop_of(ps[k]);
        assert(s[j] == spre[j]);
    } else {
        assert(ps.last() == ps[k]);
        assert(s[spre.len() as int] == stop_of(ps[k]));
    }
}

/// A reload stops the children of every program it drops or reconfigures.
pub proof fn law_reload_stops_replaced(ps: Seq<ProgramView>, new: Seq<ProgramView>, now: u64, k: int)
    requires
        0 <= k < ps.len(),
        ps[k].childs.len() > 0,
        !has_name(new, ps[k].name) || new[find_program(new, ps[k].name)].config != ps[k].config,
    ensures
        reload_step(ps, new, now).1.contains(stop_of(ps[k])),
{
    let acts = reload_step(ps, new, now).1;
    let u = update_actions(ps, new);
    let a = add_actions(ps, new);
    let s = stop_all(removed_programs(ps, new));
    assert(acts == u + a + s + seq![reply(Reply::ConfigReloaded)]);
    lemma_find_program(new, ps[k].name);
    if has_name(new, ps[k].name) {
        lemma_update_actions_stop(ps, new, k);
        let j = choose|j: int| 0 <= j < u.len() && u[j] == stop_of(ps[k]);
        assert(acts[j] == u[j]);
    } else {
        lemma_removed_contains(ps, new, k);
        let r = removed_programs(ps, new);
        let m = choose|m: int| 0 <= m < r.len() && r[m] == ps[k];
        lemma_stop_all_contains(r, m);
        let j = choose|j: int| 0 <= j < s.len() && s[j] == stop_of(ps[k]);
        assert(acts[u.len() + a.len() + j] == s[j]);
    }
}

/// A program stopped by hand is never relaunched by the periodic check.
pub proof fn law_stopped_not_relaunched(p: ProgramView, st: Seq<ChildWait>, now: u64)
    requires
        p.is_stopped_manually,
    ensures
        checked(p, st, now).1 == 0,
        checked(p, st, now).0.is_stopped_manually,
{
}

/// A stop request leaves the program stopped by hand, so the periodic check
/// does not bring it back.
pub proof fn law_stop_then_check(ps: Seq<ProgramView>, name: Seq<char>, st: Seq<ChildWait>, now: u64)
    requires
        find_program(ps, name) >= 0,
        ps[find_program(ps, name)].childs.len() > 0,
    ensures
        ({
            let i = find_program(ps, name);
            let after = stop_step(ps, name).0[i];
            after.childs.len() == 0 && after.is_stopped_manually && checked(after, st, now).1 == 0
        }),
{
    lemma_find_program(ps, name);
}

/// With the policy `Never`, the periodic check never relaunches.
pub proof fn law_never_policy(p: ProgramView, st: Seq<ChildWait>, now: u64)
    requires
        p.config.restart_policy == _Restart::Never,
    ensures
        checked(p, st, now).1 == 0,
{
}

/// A relaunch happens only with retries left, and launches exactly the
/// processes missing from the configured number.
pub proof fn law_relaunch_bounded(p: ProgramView, st: Seq<ChildWait>, now: u64)
    requires
        checked(p, st, now).1 > 0,
    ensures
        reaped(p, st, now).retry_count < p.config.max_relauch_retry,
        reaped(p, st, now).childs.len() + checked(p, st, now).1 == p.config.num_processes,
        !p.is_stopped_manually,
{
}

/// Starting a program that is running changes nothing.
pub proof fn law_start_running_is_noop(ps: Seq<ProgramView>, name: Seq<char>, now: u64)
    requires
        find_program(ps, name) >= 0,
        ps[find_program(ps, name)].childs.len() > 0,
    ensures
        start_step(ps, name, now).0 == ps,
{
}

/// Stopping a program that has no children changes nothing.
pub proof fn law_stop_idle_is_noop(ps: Seq<ProgramView>, name: Seq<char>)
    requires
        find_program(ps, name) < 0 || ps[find_program(ps, name)].childs.len() == 0,
    ensures
        stop_step(ps, name).0 == ps,
{
}

/// Stopping a running program ends every one of its children with the
/// program's own stop signal and grace time, forgets them, and marks the
/// program as stopped by hand.
pub proof fn law_stop_by_config(ps: Seq<ProgramView>, name: Seq<char>)
    requires
        find_program(ps, name) >= 0,
        ps[find_program(ps, name)].childs.len() > 0,
    ensures
        ({
            let p = ps[find_program(ps, name)];
            let r = stop_step(ps, name);
            &&& r.1[0] == ActionView::Stop(p.childs, p.config.stop_signal, p.config.time_after_proper_stop)
            &&& r.0[find_program(ps, name)].childs.len() == 0
            &&& r.0[find_program(ps, name)].is_stopped_manually
        }),
{
    lemma_find_program(ps, name);
}

proof fn lemma_find_update(ps: Seq<ProgramView>, i: int, p: ProgramView, name: Seq<char>)
    requires
        0 <= i < ps.len(),
        p.name == ps[i].name,
    ensures
        find_program(ps.update(i, p), name) == find_program(ps, name),
{
    let qs = ps.update(i, p);
    lemma_find_program(ps, name);
    lemma_find_program(qs, name);
    let f = find_program(ps, name);
    let g = find_program(qs, name);
    assert forall|j: int| 0 <= j < ps.len() implies (#[trigger] qs[j]).name == ps[j].name by {}
    if f >= 0 && g >= 0 {
        if f < g {
            assert(qs[f].name == name);
        } else if g < f {
            assert(ps[g].name == name);
        }
    } else if f >= 0 {
        assert(qs[f].name == name);
    } else if g >= 0 {
        assert(ps[g].name == name);
    }
}

/// Restarting a running program is stopping it, then starting it.
pub proof fn law_restart_is_stop_then_start(ps: Seq<ProgramView>, name: Seq<char>, now: u64)
    requires
        find_program(ps, name) >= 0,
        ps[find_program(ps, name)].childs.len() > 0,
    ensures
        restart_step(ps, name, now).0 == start_step(stop_step(ps, name).0, name, now).0,
{
    lemma_find_program(ps, name);
    let i = find_program(ps, name);
    let mid = stop_step(ps, name).0;
    lemma_find_update(ps, i, stopped(ps[i]), name);
    assert(find_program(mid, name) == i);
    assert(mid.update(i, started(mid[i], now)) =~= ps.update(i, started(stopped(ps[i]), now)));
}

proof fn lemma_kill_actions_contains(name: Seq<char>, pids: Seq<u32>, k: int)
    requires
        0 <= k < pids.len(),
    ensures
        kill_actions(name, pids).contains(ActionView::Kill(pids[k])),
    decreases pids.len(),
{
    let pre = pids.drop_last();
    let kpre = kill_actions(name, pre);
    let ks = kill_actions(name, pids);
    if k < pre.len() {
        lemma_kill_actions_contains(name, pre, k);
        let j = choose|j: int| 0 <= j < kpre.len() && kpre[j] == ActionView::Kill(pre[k]);
        assert(ks[j] == kpre[j]);
    } else {
        assert(ks[kpre.len() as int + 1] == ActionView::Kill(pids.last()));
    }
}

proof fn lemma_exit_kills_contains(ps: Seq<ProgramView>, i: int, k: int)
    requires
        0 <= i < ps.len(),
        0 <= k < ps[i].childs.len(),
    ensures
        exit_kills(ps).contains(ActionView::Kill(ps[i].childs[k])),
    decreases ps.len(),
{
    let pre = ps.drop_last();
    let epre = exit_kills(pre);
    let es = exit_kills(ps);
    if i < pre.len() {
        assert(pre[i] == ps[i]);
        lemma_exit_kills_contains(pre, i, k);
        let j = choose|j: int|
            0 <= j < epre.len() && epre[j] == ActionView::Kill(ps[i].childs[k]);
        assert(es[j] == epre[j]);
    } else {
        assert(ps.last() == ps[i]);
        let own = kill_actions(ps[i].name, ps[i].childs);
        lemma_kill_actions_contains(ps[i].name, ps[i].childs, k);
        let j = choose|j: int| 0 <= j < own.len() && own[j] == ActionView::Kill(ps[i].childs[k]);
        assert(es[epre.len() + j] == own[j]);
    }
}

/// An exit kills every child of every program, then ends the engine.
pub proof fn law_exit_kills_all(ps: Seq<ProgramView>, i: int, k: int)
    requires
        0 <= i < ps.len(),
        0 <= k < ps[i].childs.len(),
    ensures
        exit_step(ps).1.contains(ActionView::Kill(ps[i].childs[k])),
        exit_step(ps).1.last() == ActionView::Quit,
        exit_step(ps).0 == ps,
{
    lemma_exit_kills_contains(ps, i, k);
    let acts = exit_step(ps).1;
    let e = exit_kills(ps);
    let j = choose|j: int| 0 <= j < e.len() && e[j] == ActionView::Kill(ps[i].childs[k]);
    assert(acts[1 + j] == e[j]);
}


/// The periodic check keeps every child that is still running.
pub proof fn law_running_children_kept(childs: Seq<u32>, st: Seq<ChildWait>, k: int)
    requires
        childs.len() == st.len(),
        0 <= k < st.len(),
        st[k] is Running,
    ensures
        still_running(childs, st).contains(childs[k]),
    decreases st.len(),
{
    let cp = childs.drop_last();
    let sp = st.drop_last();
    let pre = still_running(cp, sp);
    let all = still_running(childs, st);
    if k < st.len() - 1 {
        assert(cp[k] == childs[k] && sp[k] == st[k]);
        law_running_children_kept(cp, sp, k);
        let j = choose|j: int| 0 <= j < pre.len() && pre[j] == childs[k];
        if st.last() is Running {
            assert(all[j] == pre[j]);
        } else {
            assert(all == pre);
        }
    } else {
        assert(all[pre.len() as int] == childs[k]);
    }
}

/// The periodic check keeps no more children than there were.
pub proof fn law_reap_shrinks(childs: Seq<u32>, st: Seq<ChildWait>)
    ensures
        still_running(childs, st).len() <= childs.len(),
    decreases st.len(),
{
    if st.len() > 0 && childs.len() > 0 {
        law_reap_shrinks(childs.drop_last(), st.drop_last());
    }
}

/// The clock of a log line reads hours below 24, minutes and seconds below 60.
pub proof fn law_clock_ranges(now_secs: u64)
    ensures
        0 <= clock(now_secs).0 < 24,
        0 <= clock(now_secs).1 < 60,
        0 <= clock(now_secs).2 < 60,
{
}

/// A logger writes a message exactly when its level is at least the logger's
/// minimum; a new logger (minimum `Debug`) writes every message.
pub proof fn law_log_filter(min: Level, l: Level, msg: Seq<char>, now_secs: u64)
    ensures
        logged(min, l, msg, now_secs) is Some <==> level_rank(l) >= level_rank(min),
        logged(Level::Debug, l, msg, now_secs) == Some(log_line(l, msg, now_secs)),
{
}

/// A umask reads the same with or without a leading `0o`.
pub proof fn law_umask_prefix(s: Seq<char>)
    ensures
        octal_u16(strip_octal_prefix(seq!['0', 'o'] + s)) == octal_u16(strip_octal_prefix(s)),
{
    let t = seq!['0', 'o'] + s;
    assert(t.subrange(2, t.len() as int) =~= s);
}


/// A current program that the new configuration names with the same
/// configuration.
spec fn same_in(new: Seq<ProgramView>, p: ProgramView) -> bool {
    find_program(new, p.name) >= 0 && new[find_program(new, p.name)].config == p.config
}

proof fn lemma_kept_identity(ps: Seq<ProgramView>, new: Seq<ProgramView>, now: u64)
    requires
        forall|k: int| 0 <= k < ps.len() ==> same_in(new, #[trigger] ps[k]),
    ensures
        kept_after_reload(ps, new, now) == ps,
        update_actions(ps, new) == Seq::<ActionView>::empty(),
        removed_programs(ps, new) == Seq::<ProgramView>::empty(),
    decreases ps.len(),
{
    if ps.len() > 0 {
        let pre = ps.drop_last();
        assert forall|k: int| 0 <= k < pre.len() implies same_in(new, #[trigger] pre[k]) by {
            assert(pre[k] == ps[k]);
        }
        lemma_kept_identity(pre, new, now);
        let p = ps.last();
        assert(same_in(new, ps[ps.len() - 1]));
        lemma_find_program(new, p.name);
        assert(update_actions_of(p, new) =~= Seq::<ActionView>::empty());
        assert(kept_after_reload(ps, new, now) =~= ps);
        assert(update_actions(ps, new) =~= Seq::<ActionView>::empty());
        assert(removed_programs(ps, new) =~= Seq::<ProgramView>::empty());
    }
}

proof fn lemma_added_none(ps: Seq<ProgramView>, new: Seq<ProgramView>, now: u64)
    requires
        forall|j: int| 0 <= j < new.len() ==> has_name(ps, (#[trigger] new[j]).name),
    ensures
        added_programs(ps, new, now) == Seq::<ProgramView>::empty(),
        add_actions(ps, new) == Seq::<ActionView>::empty(),
    decreases new.len(),
{
    if new.len() > 0 {
        let pre = new.drop_last();
        assert forall|j: int| 0 <= j < pre.len() implies has_name(ps, (#[trigger] pre[j]).name) by {
            assert(pre[j] == new[j]);
        }
        lemma_added_none(ps, pre, now);
        assert(has_name(ps, new[new.len() - 1].name));
        assert(!adds_last(ps, new));
        assert(added_programs(ps, new, now) =~= Seq::<ProgramView>::empty());
        assert(add_actions(ps, new) =~= Seq::<ActionView>::empty());
    }
}

/// Reloading a configuration that names the same programs with the same
/// configurations changes nothing and stops nothing.
pub proof fn law_reload_unchanged(ps: Seq<ProgramView>, new: Seq<ProgramView>, now: u64)
    requires
        forall|k: int|
            0 <= k < ps.len() ==> find_program(new, (#[trigger] ps[k]).name) >= 0 && new[find_program(
                new,
                ps[k].name,
            )].config == ps[k].config,
        forall|j: int| 0 <= j < new.len() ==> has_name(ps, (#[trigger] new[j]).name),
    ensures
        reload_step(ps, new, now).0 == ps,
        reload_step(ps, new, now).1 == seq![reply(Reply::ConfigReloaded)],
{
    assert forall|k: int| 0 <= k < ps.len() implies same_in(new, #[trigger] ps[k]) by {}
    lemma_kept_identity(ps, new, now);
    lemma_added_none(ps, new, now);
    assert(stop_all(Seq::<ProgramView>::empty()) == Seq::<ActionView>::empty());
    assert(reload_step(ps, new, now).0 =~= ps);
    assert(reload_step(ps, new, now).1 =~= seq![reply(Reply::ConfigReloaded)]);
}


proof fn lemma_same_names_distinct(ps: Seq<ProgramView>, qs: Seq<ProgramView>)
    requires
        names_distinct(ps),
        qs.len() == ps.len(),
        forall|i: int| 0 <= i < ps.len() ==> (#[trigger] qs[i]).name == ps[i].name,
    ensures
        names_distinct(qs),
{
    assert forall|i: int, j: int|
        0 <= i < qs.len() && 0 <= j < qs.len() && #[trigger] qs[i].name == #[trigger] qs[j].name
            implies i == j by {
        assert(ps[i].name == ps[j].name);
    }
}

/// Every message the engine handles keeps the names of the programs distinct.
pub proof fn law_step_keeps_names_distinct(ps: Seq<ProgramView>, msg: ThreadMessage, now: u64)
    requires
        names_distinct(ps),
    ensures
        names_distinct(message_step(ps, msg, now).0),
{
    let qs = message_step(ps, msg, now).0;
    match msg {
        ThreadMessage::ReloadConfig(t) => {
            law_reload_distinct(ps, t@, now);
        },
        ThreadMessage::SignalReceived(sig) => {
            assert forall|i: int| 0 <= i < ps.len() implies (#[trigger] qs[i]).name == ps[i].name by {
                assert(qs[i] == after_signal(ps[i], sig));
            }
            lemma_same_names_distinct(ps, qs);
        },
        ThreadMessage::Start(n) => {
            lemma_find_program(ps, n@);
            lemma_same_names_distinct(ps, qs);
        },
        ThreadMessage::Stop(n) => {
            lemma_find_program(ps, n@);
            lemma_same_names_distinct(ps, qs);
        },
        ThreadMessage::Restart(n) => {
            lemma_find_program(ps, n@);
            lemma_same_names_distinct(ps, qs);
        },
        _ => {},
    }
}

/// The periodic check and the launch at start keep every program's name.
pub proof fn law_check_and_autostart_keep_names(p: ProgramView, st: Seq<ChildWait>, now: u64)
    ensures
        checked(p, st, now).0.name == p.name,
        checked(p, st, now).0.config == p.config,
        autostarted(p, now).name == p.name,
{
}


/// Work that neither answers the control shell nor ends the engine.
pub open spec fn plain(acts: Seq<ActionView>) -> bool {
    forall|i: int| 0 <= i < acts.len() ==> !(#[trigger] acts[i] is Reply) && !(acts[i] is Quit)
}

/// The answers to the control shell among a list of work, in order.
pub open spec fn replies_of(acts: Seq<ActionView>) -> Seq<Reply>
    decreases acts.len(),
{
    if acts.len() == 0 {
        Seq::empty()
    } else {
        replies_of(acts.drop_last()) + match acts.last() {
            ActionView::Reply(r) => seq![r],
            _ => Seq::empty(),
        }
    }
}

/// The answer each request gets: `ActionDone` for start, stop, restart and a
/// forwarded signal, `StatusDone` for a status, `ConfigReloaded` for a new
/// configuration, `ExitDone` for an exit; the other messages get none.
pub open spec fn expected_reply(msg: ThreadMessage) -> Seq<Reply> {
    match msg {
        ThreadMessage::Start(_) => seq![Reply::ActionDone],
        ThreadMessage::Stop(_) => seq![Reply::ActionDone],
        ThreadMessage::Restart(_) => seq![Reply::ActionDone],
        ThreadMessage::SignalReceived(_) => seq![Reply::ActionDone],
        ThreadMessage::Status(_) => seq![Reply::StatusDone],
        ThreadMessage::StatusAll => seq![Reply::StatusDone],
        ThreadMessage::ReloadConfig(_) => seq![Reply::ConfigReloaded],
        ThreadMessage::Exit => seq![Reply::ExitDone],
        _ => Seq::empty(),
    }
}

proof fn lemma_replies_concat(a: Seq<ActionView>, b: Seq<ActionView>)
    ensures
        replies_of(a + b) == replies_of(a) + replies_of(b),
    decreases b.len(),
{
    if b.len() == 0 {
        assert(a + b =~= a);
        assert(replies_of(a) + replies_of(b) =~= replies_of(a));
    } else {
        lemma_replies_concat(a, b.drop_last());
        assert((a + b).drop_last() =~= a + b.drop_last());
        assert((a + b).last() == b.last());
        assert(replies_of(a + b) =~= replies_of(a) + replies_of(b));
    }
}

proof fn lemma_replies_single(a: ActionView)
    ensures
        replies_of(seq![a]) == match a {
            ActionView::Reply(r) => seq![r],
            _ => Seq::<Reply>::empty(),
        },
{
    let s = seq![a];
    assert(s.drop_last() =~= Seq::<ActionView>::empty());
    assert(replies_of(Seq::<ActionView>::empty()) == Seq::<Reply>::empty());
    assert(s.last() == a);
    assert(replies_of(s) =~= replies_of(s.drop_last()) + match a {
        ActionView::Reply(r) => seq![r],
        _ => Seq::<Reply>::empty(),
    });
}

proof fn lemma_plain_replies(a: Seq<ActionView>)
    requires
        plain(a),
    ensures
        replies_of(a) == Seq::<Reply>::empty(),
    decreases a.len(),
{
    if a.len() > 0 {
        assert(plain(a.drop_last())) by {
            assert forall|i: int| 0 <= i < a.drop_last().len() implies !(
            #[trigger] a.drop_last()[i] is Reply) && !(a.drop_last()[i] is Quit) by {
                assert(a.drop_last()[i] == a[i]);
            }
        }
        lemma_plain_replies(a.drop_last());
        assert(!(a[a.len() - 1] is Reply));
    }
}

proof fn lemma_plain_concat(a: Seq<ActionView>, b: Seq<ActionView>)
    requires
        plain(a),
        plain(b),
    ensures
        plain(a + b),
{
    assert forall|i: int| 0 <= i < (a + b).len() implies !(#[trigger] (a + b)[i] is Reply) && !((a
        + b)[i] is Quit) by {
        if i < a.len() {
            assert((a + b)[i] == a[i]);
        } else {
            assert((a + b)[i] == b[i - a.len()]);
        }
    }
}

proof fn lemma_plain_signal(ps: Seq<ProgramView>, sig: crate::signals::_Signalstopper)
    ensures
        plain(signal_actions(ps, sig)),
    decreases ps.len(),
{
    if ps.len() > 0 {
        lemma_plain_signal(ps.drop_last(), sig);
        lemma_plain_concat(
            signal_actions(ps.drop_last(), sig),
            program_signal_actions(ps.last(), sig),
        );
    }
}

proof fn lemma_plain_status(ps: Seq<ProgramView>, target: Option<Seq<char>>)
    ensures
        plain(status_lines(ps, target)),
    decreases ps.len(),
{
    if ps.len() > 0 {
        lemma_plain_status(ps.drop_last(), target);
        let own = if crate::engine::shown(ps.last(), target) {
            seq![crate::engine::log(crate::engine::NoticeView::Status(ps.last().name, ps.last().childs))]
        } else {
            Seq::empty()
        };
        lemma_plain_concat(status_lines(ps.drop_last(), target), own);
    }
}

proof fn lemma_plain_kills(name: Seq<char>, pids: Seq<u32>)
    ensures
        plain(kill_actions(name, pids)),
    decreases pids.len(),
{
    if pids.len() > 0 {
        lemma_plain_kills(name, pids.drop_last());
        lemma_plain_concat(
            kill_actions(name, pids.drop_last()),
            seq![
                crate::engine::log(crate::engine::NoticeView::Killing(name, pids.last())),
                ActionView::Kill(pids.last()),
            ],
        );
    }
}

proof fn lemma_plain_exit(ps: Seq<ProgramView>)
    ensures
        plain(exit_kills(ps)),
    decreases ps.len(),
{
    if ps.len() > 0 {
        lemma_plain_exit(ps.drop_last());
        lemma_plain_kills(ps.last().name, ps.last().childs);
        lemma_plain_concat(
            exit_kills(ps.drop_last()),
            kill_actions(ps.last().name, ps.last().childs),
        );
    }
}

proof fn lemma_plain_updates(ps: Seq<ProgramView>, new: Seq<ProgramView>)
    ensures
        plain(update_actions(ps, new)),
    decreases ps.len(),
{
    if ps.len() > 0 {
        lemma_plain_updates(ps.drop_last(), new);
        lemma_plain_concat(update_actions(ps.drop_last(), new), update_actions_of(ps.last(), new));
    }
}

proof fn lemma_plain_adds(ps: Seq<ProgramView>, new: Seq<ProgramView>)
    ensures
        plain(add_actions(ps, new)),
    decreases new.len(),
{
    if new.len() > 0 {
        lemma_plain_adds(ps, new.drop_last());
        let q = new.last();
        let own = if adds_last(ps, new) {
            seq![crate::engine::log(crate::engine::NoticeView::NewProgram(q.name))]
                + if q.config.autostart {
                seq![ActionView::Spawn(q.name, q.config.num_processes as int, true)]
            } else {
                Seq::empty()
            }
        } else {
            Seq::empty()
        };
        lemma_plain_concat(add_actions(ps, new.drop_last()), own);
    }
}

proof fn lemma_plain_stops(ps: Seq<ProgramView>)
    ensures
        plain(stop_all(ps)),
    decreases ps.len(),
{
    if ps.len() > 0 {
        lemma_plain_stops(ps.drop_last());
        let own = if ps.last().childs.len() > 0 {
            seq![stop_of(ps.last())]
        } else {
            Seq::empty()
        };
        lemma_plain_concat(stop_all(ps.drop_last()), own);
    }
}

proof fn lemma_answer(body: Seq<ActionView>, r: Reply)
    requires
        plain(body),
    ensures
        replies_of(body + seq![ActionView::Reply(r)]) == seq![r],
        !(body + seq![ActionView::Reply(r)]).contains(ActionView::Quit),
{
    lemma_plain_replies(body);
    lemma_replies_concat(body, seq![ActionView::Reply(r)]);
    lemma_replies_single(ActionView::Reply(r));
    let all = body + seq![ActionView::Reply(r)];
    if all.contains(ActionView::Quit) {
        let i = choose|i: int| 0 <= i < all.len() && all[i] == ActionView::Quit;
        if i < body.len() {
            assert(all[i] == body[i]);
        }
    }
}

/// Every request gets exactly one answer, the one that fits it, and only an
/// exit ends the engine, right after answering.
pub proof fn law_one_reply(ps: Seq<ProgramView>, msg: ThreadMessage, now: u64)
    ensures
        replies_of(message_step(ps, msg, now).1) == expected_reply(msg),
        message_step(ps, msg, now).1.contains(ActionView::Quit) <==> msg is Exit,
        msg is Exit ==> message_step(ps, msg, now).1.last() == ActionView::Quit,
{
    let acts = message_step(ps, msg, now).1;
    match msg {
        ThreadMessage::Start(n) => {
            lemma_answer(acts.drop_last(), Reply::ActionDone);
            assert(acts =~= acts.drop_last() + seq![reply(Reply::ActionDone)]);
        },
        ThreadMessage::Stop(n) => {
            lemma_answer(acts.drop_last(), Reply::ActionDone);
            assert(acts =~= acts.drop_last() + seq![reply(Reply::ActionDone)]);
        },
        ThreadMessage::Restart(n) => {
            lemma_answer(acts.drop_last(), Reply::ActionDone);
            assert(acts =~= acts.drop_last() + seq![reply(Reply::ActionDone)]);
        },
        ThreadMessage::SignalReceived(sig) => {
            lemma_plain_signal(ps, sig);
            lemma_answer(signal_actions(ps, sig), Reply::ActionDone);
        },
        ThreadMessage::StatusAll => {
            lemma_plain_status(ps, None);
            lemma_answer(status_lines(ps, None), Reply::StatusDone);
        },
        ThreadMessage::Status(n) => {
            lemma_plain_status(ps, Some(n@));
            lemma_answer(status_lines(ps, Some(n@)), Reply::StatusDone);
        },
        ThreadMessage::ReloadConfig(t) => {
            let new = t@;
            lemma_plain_updates(ps, new);
            lemma_plain_adds(ps, new);
            lemma_plain_stops(removed_programs(ps, new));
            lemma_plain_concat(update_actions(ps, new), add_actions(ps, new));
            lemma_plain_concat(
                update_actions(ps, new) + add_actions(ps, new),
                stop_all(removed_programs(ps, new)),
            );
            lemma_answer(
                update_actions(ps, new) + add_actions(ps, new) + stop_all(removed_programs(ps, new)),
                Reply::ConfigReloaded,
            );
        },
        ThreadMessage::Exit => {
            let body = seq![crate::engine::log(crate::engine::NoticeView::Exiting)] + exit_kills(ps);
            lemma_plain_exit(ps);
            lemma_plain_concat(seq![crate::engine::log(crate::engine::NoticeView::Exiting)], exit_kills(ps));
            lemma_answer(body, Reply::ExitDone);
            let with_reply = body + seq![reply(Reply::ExitDone)];
            assert(acts =~= with_reply + seq![ActionView::Quit]);
            lemma_replies_concat(with_reply, seq![ActionView::Quit]);
            lemma_replies_single(ActionView::Quit);
            assert(acts[acts.len() - 1] == ActionView::Quit);
        },
        _ => {
            assert(acts =~= Seq::<ActionView>::empty());
        },
    }
}

/// The engine run over a sequence of messages, the `i`-th handled at
/// `nows[i]`: the programs at the end and all the work asked for.
pub open spec fn engine_run(ps: Seq<ProgramView>, msgs: Seq<ThreadMessage>, nows: Seq<u64>) -> (
    Seq<ProgramView>,
    Seq<ActionView>,
)
    decreases msgs.len(),
{
    if msgs.len() == 0 || nows.len() == 0 {
        (ps, Seq::empty())
    } else {
        let before = engine_run(ps, msgs.drop_last(), nows.drop_last());
        let step = message_step(before.0, msgs.last(), nows.last());
        (step.0, before.1 + step.1)
    }
}

/// The answers that a sequence of requests gets, in order.
pub open spec fn expected_replies(msgs: Seq<ThreadMessage>) -> Seq<Reply>
    decreases msgs.len(),
{
    if msgs.len() == 0 {
        Seq::empty()
    } else {
        expected_replies(msgs.drop_last()) + expected_reply(msgs.last())
    }
}

/// Over any sequence of messages, the engine answers each request once, in
/// order; until an exit it does not end.
pub proof fn law_replies_in_order(ps: Seq<ProgramView>, msgs: Seq<ThreadMessage>, nows: Seq<u64>)
    requires
        nows.len() == msgs.len(),
    ensures
        replies_of(engine_run(ps, msgs, nows).1) == expected_replies(msgs),
        (forall|i: int| 0 <= i < msgs.len() ==> !(#[trigger] msgs[i] is Exit)) ==> !engine_run(
            ps,
            msgs,
            nows,
        ).1.contains(ActionView::Quit),
    decreases msgs.len(),
{
    if msgs.len() > 0 {
        let pre = msgs.drop_last();
        law_replies_in_order(ps, pre, nows.drop_last());
        let before = engine_run(ps, pre, nows.drop_last());
        let step = message_step(before.0, msgs.last(), nows.last());
        law_one_reply(before.0, msgs.last(), nows.last());
        lemma_replies_concat(before.1, step.1);
        if forall|i: int| 0 <= i < msgs.len() ==> !(#[trigger] msgs[i] is Exit) {
            assert forall|i: int| 0 <= i < pre.len() implies !(#[trigger] pre[i] is Exit) by {
                assert(pre[i] == msgs[i]);
            }
            assert(!(msgs[msgs.len() - 1] is Exit));
            let all = before.1 + step.1;
            if all.contains(ActionView::Quit) {
                let i = choose|i: int| 0 <= i < all.len() && all[i] == ActionView::Quit;
                if i < before.1.len() {
                    assert(all[i] == before.1[i]);
                } else {
                    assert(all[i] == step.1[i - before.1.len()]);
                }
            }
        }
    }
}

proof fn lemma_running_from_old(childs: Seq<u32>, st: Seq<ChildWait>, x: u32)
    requires
        still_running(childs, st).contains(x),
    ensures
        childs.contains(x),
    decreases st.len(),
{
    let cp = childs.drop_last();
    let sp = st.drop_last();
    let pre = still_running(cp, sp);
    let all = still_running(childs, st);
    if st.len() > 0 && childs.len() > 0 {
        let i = choose|i: int| 0 <= i < all.len() && all[i] == x;
        if i < pre.len() {
            assert(all[i] == pre[i]);
            lemma_running_from_old(cp, sp, x);
            let j = choose|j: int| 0 <= j < cp.len() && cp[j] == x;
            assert(childs[j] == cp[j]);
        } else {
            assert(childs[childs.len() - 1] == x);
        }
    }
}

/// A check never leaves a program with more processes than configured: the
/// children it keeps plus those it asks to launch stay within the count, and
/// every child it keeps was a child before.
pub proof fn law_check_within_count(p: ProgramView, st: Seq<ChildWait>, now: u64, x: u32)
    requires
        p.childs.len() <= p.config.num_processes,
    ensures
        checked(p, st, now).0.childs.len() + checked(p, st, now).1 <= p.config.num_processes,
        checked(p, st, now).0.childs.contains(x) ==> p.childs.contains(x),
{
    law_reap_shrinks(p.childs, st);
    if checked(p, st, now).0.childs.contains(x) {
        lemma_running_from_old(p.childs, st, x);
    }
}

/// A check of every program keeps the programs in order with their names and
/// configurations, keeps for each only children it had, and leaves each within
/// its configured number of processes once the asked launches are made.
pub proof fn law_check_all_within_count(ps: Seq<ProgramView>, sts: Seq<Seq<ChildWait>>, now: u64)
    requires
        sts.len() == ps.len(),
        forall|i: int| 0 <= i < ps.len() ==> #[trigger] ps[i].childs.len() <= ps[i].config.num_processes,
    ensures
        forall|i: int|
            0 <= i < ps.len() ==> {
                let r = #[trigger] checked(ps[i], sts[i], now);
                &&& r.0.childs.len() + r.1 <= r.0.config.num_processes
                &&& r.0.name == ps[i].name
                &&& r.0.config == ps[i].config
                &&& forall|x: u32| r.0.childs.contains(x) ==> ps[i].childs.contains(x)
            },
{
    assert forall|i: int| 0 <= i < ps.len() implies {
        let r = #[trigger] checked(ps[i], sts[i], now);
        &&& r.0.childs.len() + r.1 <= r.0.config.num_processes
        &&& r.0.name == ps[i].name
        &&& r.0.config == ps[i].config
        &&& forall|x: u32| r.0.childs.contains(x) ==> ps[i].childs.contains(x)
    } by {
        law_check_and_autostart_keep_names(ps[i], sts[i], now);
        assert forall|x: u32| checked(ps[i], sts[i], now).0.childs.contains(x) implies ps[i].childs.contains(x) by {
            law_check_within_count(ps[i], sts[i], now, x);
        }
        law_check_within_count(ps[i], sts[i], now, 0);
    }
}

proof fn lemma_added_spawned(ps: Seq<ProgramView>, new: Seq<ProgramView>, k: int)
    requires
        0 <= k < new.len(),
        !has_name(ps, new[k].name),
        forall|j: int| 0 <= j < k ==> #[trigger] new[j].name != new[k].name,
        new[k].config.autostart,
    ensures
        add_actions(ps, new).contains(
            ActionView::Spawn(new[k].name, new[k].config.num_processes as int, true),
        ),
    decreases new.len(),
{
    let pre = new.drop_last();
    let target = ActionView::Spawn(new[k].name, new[k].config.num_processes as int, true);
    let acts = add_actions(ps, new);
    if k == new.len() - 1 {
        if has_name(pre, new[k].name) {
            let j = choose|j: int| 0 <= j < pre.len() && #[trigger] pre[j].name == new[k].name;
            assert(pre[j] == new[j]);
        }
        assert(adds_last(ps, new));
        assert(acts[add_actions(ps, pre).len() as int + 1] == target);
    } else {
        assert(pre[k] == new[k]);
        assert forall|j: int| 0 <= j < k implies #[trigger] pre[j].name != pre[k].name by {
            assert(pre[j] == new[j]);
        }
        lemma_added_spawned(ps, pre, k);
        let i = choose|i: int| 0 <= i < add_actions(ps, pre).len() && add_actions(ps, pre)[i] == target;
        assert(acts[i] == target);
    }
}

/// A reload launches every program that the new configuration adds and that
/// starts automatically, with all the processes its configuration asks for.
pub proof fn law_reload_launches_added(ps: Seq<ProgramView>, t: Taskmaster, now: u64, k: int)
    requires
        names_distinct(t@),
        0 <= k < t@.len(),
        !has_name(ps, t@[k].name),
        t@[k].config.autostart,
    ensures
        message_step(ps, ThreadMessage::ReloadConfig(t), now).1.contains(
            ActionView::Spawn(t@[k].name, t@[k].config.num_processes as int, true),
        ),
{
    let new = t@;
    let target = ActionView::Spawn(new[k].name, new[k].config.num_processes as int, true);
    lemma_added_spawned(ps, new, k);
    let u = update_actions(ps, new);
    let a = add_actions(ps, new);
    let i = choose|i: int| 0 <= i < a.len() && a[i] == target;
    let acts = reload_step(ps, new, now).1;
    assert(acts[u.len() + i] == target);
}

/// A check never forgets an unexpected exit unless it relaunches the program:
/// reaping keeps it, and a check that launches nothing leaves it set.
pub proof fn law_unexpected_exit_remembered(p: ProgramView, st: Seq<ChildWait>, now: u64)
    requires
        p.unexpected_error_code,
    ensures
        reaped(p, st, now).unexpected_error_code,
        checked(p, st, now).1 == 0 ==> checked(p, st, now).0.unexpected_error_code,
        !checked(p, st, now).0.unexpected_error_code ==> checked(p, st, now).1 > 0,
{
}

proof fn lemma_signal_acts(ps: Seq<ProgramView>, sig: _Signalstopper, a: ActionView)
    requires
        signal_actions(ps, sig).contains(a),
    ensures
        exists|j: int|
            0 <= j < ps.len() && #[trigger] ps[j].config.stop_signal == Some(sig) && (a
                == ActionView::Log(NoticeView::StoppingOnSignal(sig, ps[j].name)) || a == stop_of(
                ps[j],
            )),
    decreases ps.len(),
{
    let pre = ps.drop_last();
    let head = signal_actions(pre, sig);
    let all = signal_actions(ps, sig);
    let own = program_signal_actions(ps.last(), sig);
    let i = choose|i: int| 0 <= i < all.len() && all[i] == a;
    if i < head.len() {
        assert(head[i] == a);
        lemma_signal_acts(pre, sig, a);
        let j = choose|j: int|
            0 <= j < pre.len() && #[trigger] pre[j].config.stop_signal == Some(sig) && (a
                == ActionView::Log(NoticeView::StoppingOnSignal(sig, pre[j].name)) || a == stop_of(
                pre[j],
            ));
        assert(ps[j] == pre[j]);
    } else {
        assert(own[i - head.len()] == a);
        assert(ps[ps.len() - 1].config.stop_signal == Some(sig));
    }
}

/// A signal that the supervisor receives touches no program whose stop signal
/// is another one (or none): the program is left as it was, and nothing is
/// logged or stopped for it.
pub proof fn law_signal_spares_others(ps: Seq<ProgramView>, sig: _Signalstopper, now: u64, i: int)
    requires
        names_distinct(ps),
        0 <= i < ps.len(),
        ps[i].config.stop_signal != Some(sig),
    ensures
        message_step(ps, ThreadMessage::SignalReceived(sig), now).0.len() == ps.len(),
        message_step(ps, ThreadMessage::SignalReceived(sig), now).0[i] == ps[i],
        !message_step(ps, ThreadMessage::SignalReceived(sig), now).1.contains(
            ActionView::Log(NoticeView::StoppingOnSignal(sig, ps[i].name)),
        ),
        !message_step(ps, ThreadMessage::SignalReceived(sig), now).1.contains(stop_of(ps[i])),
{
    let acts = message_step(ps, ThreadMessage::SignalReceived(sig), now).1;
    let body = signal_actions(ps, sig);
    let a = ActionView::Log(NoticeView::StoppingOnSignal(sig, ps[i].name));
    if acts.contains(a) {
        let k = choose|k: int| 0 <= k < acts.len() && acts[k] == a;
        assert(k < body.len());
        assert(body[k] == a);
        lemma_signal_acts(ps, sig, a);
        let j = choose|j: int|
            0 <= j < ps.len() && #[trigger] ps[j].config.stop_signal == Some(sig) && (a
                == ActionView::Log(NoticeView::StoppingOnSignal(sig, ps[j].name)) || a == stop_of(
                ps[j],
            ));
        assert(ps[j].name == ps[i].name);
    }
    let b = stop_of(ps[i]);
    if acts.contains(b) {
        let k = choose|k: int| 0 <= k < acts.len() && acts[k] == b;
        assert(k < body.len());
        assert(body[k] == b);
        lemma_signal_acts(ps, sig, b);
    }
}

/// A signal that the supervisor receives stops every running program whose
/// stop signal it is, ending its children with that signal.
pub proof fn law_signal_stops_its_programs(ps: Seq<ProgramView>, sig: _Signalstopper, now: u64, i: int)
    requires
        0 <= i < ps.len(),
        ps[i].config.stop_signal == Some(sig),
        ps[i].childs.len() > 0,
    ensures
        message_step(ps, ThreadMessage::SignalReceived(sig), now).0[i].childs.len() == 0,
        message_step(ps, ThreadMessage::SignalReceived(sig), now).0[i].is_stopped_manually,
        message_step(ps, ThreadMessage::SignalReceived(sig), now).1.contains(
            ActionView::Stop(ps[i].childs, Some(sig), ps[i].config.time_after_proper_stop),
        ),
{
    lemma_signal_stop_listed(ps, sig, i);
    let body = signal_actions(ps, sig);
    let acts = message_step(ps, ThreadMessage::SignalReceived(sig), now).1;
    let target = ActionView::Stop(ps[i].childs, Some(sig), ps[i].config.time_after_proper_stop);
    let k = choose|k: int| 0 <= k < body.len() && body[k] == target;
    assert(acts[k] == target);
}

proof fn lemma_signal_stop_listed(ps: Seq<ProgramView>, sig: _Signalstopper, i: int)
    requires
        0 <= i < ps.len(),
        ps[i].config.stop_signal == Some(sig),
        ps[i].childs.len() > 0,
    ensures
        signal_actions(ps, sig).contains(
            ActionView::Stop(ps[i].childs, Some(sig), ps[i].config.time_after_proper_stop),
        ),
    decreases ps.len(),
{
    let pre = ps.drop_last();
    let head = signal_actions(pre, sig);
    let all = signal_actions(ps, sig);
    let target = ActionView::Stop(ps[i].childs, Some(sig), ps[i].config.time_after_proper_stop);
    if i < ps.len() - 1 {
        assert(pre[i] == ps[i]);
        lemma_signal_stop_listed(pre, sig, i);
        let k = choose|k: int| 0 <= k < head.len() && head[k] == target;
        assert(all[k] == target);
    } else {
        assert(all[head.len() as int + 1] == target);
    }
}

/// A `start`, `stop`, `restart` or `status` line sends one request of its kind
/// per program it names, in the order of the names.
pub proof fn law_one_request_per_name(line: Seq<char>)
    ensures
        ({
            let w = words(line);
            let r = requests_of(command_of(w));
            w.len() > 0 && w[0] == "stop"@ ==> r.len() == w.len() - 1 && forall|i: int|
                0 <= i < r.len() ==> #[trigger] r[i] == RequestView::Stop(w[i + 1])
        }),
        ({
            let w = words(line);
            let r = requests_of(command_of(w));
            w.len() > 0 && w[0] == "start"@ ==> r.len() == w.len() - 1 && forall|i: int|
                0 <= i < r.len() ==> #[trigger] r[i] == RequestView::Start(w[i + 1])
        }),
        ({
            let w = words(line);
            let r = requests_of(command_of(w));
            w.len() > 0 && w[0] == "restart"@ ==> r.len() == w.len() - 1 && forall|i: int|
                0 <= i < r.len() ==> #[trigger] r[i] == RequestView::Restart(w[i + 1])
        }),
        ({
            let w = words(line);
            let r = requests_of(command_of(w));
            w.len() > 1 && w[0] == "status"@ ==> r.len() == w.len() - 1 && forall|i: int|
                0 <= i < r.len() ==> #[trigger] r[i] == RequestView::Status(w[i + 1])
        }),
        words(line) == seq!["exit"@] ==> requests_of(command_of(words(line))) == seq![RequestView::Exit],
        words(line) == seq!["status"@] ==> requests_of(command_of(words(line))) == seq![
            RequestView::StatusAll,
        ],
        words(line).len() == 0 ==> requests_of(command_of(words(line))).len() == 0,
{
    reveal_strlit("start");
    reveal_strlit("stop");
    reveal_strlit("exit");
    reveal_strlit("restart");
    reveal_strlit("status");
    let w = words(line);
    if w.len() > 0 {
        assert("stop"@.len() != "start"@.len());
        assert("restart"@.len() != "start"@.len() && "restart"@.len() != "stop"@.len());
        assert("restart"@.len() != "exit"@.len());
        assert("exit"@ != "stop"@) by {
            assert("exit"@[0] != "stop"@[0]);
        }
        assert("exit"@.len() != "start"@.len());
        assert("status"@ != "start"@) by {
            assert("status"@[3] != "start"@[3]);
        }
        assert("status"@.len() != "stop"@.len() && "status"@.len() != "exit"@.len()
            && "status"@.len() != "restart"@.len());
    }
}

/// Where the program of a command is found: in the search path exactly when
/// its name has no `/`, as an absolute path exactly when it starts with `/`,
/// and relative to the working directory otherwise.
pub proof fn law_executable_location(binary: Seq<char>)
    requires
        binary.len() > 0,
    ensures
        (location_of(binary) == ExecutableLocation::SearchPath) <==> !binary.contains('/'),
        (location_of(binary) == ExecutableLocation::Absolute) <==> binary[0] == '/',
        (location_of(binary) == ExecutableLocation::RelativeToWorkingDir) <==> (binary.contains('/')
            && binary[0] != '/'),
{
    if binary[0] == '/' {
        assert(binary.contains('/'));
    }
}

proof fn lemma_update_spawns(ps: Seq<ProgramView>, new: Seq<ProgramView>, k: int)
    requires
        0 <= k < update_actions(ps, new).len(),
    ensures
        update_actions(ps, new)[k] matches ActionView::Spawn(n, c, b) ==> b && exists|j: int|
            0 <= j < new.len() && #[trigger] new[j].name == n && c == new[j].config.num_processes
                && new[j].config.autostart,
    decreases ps.len(),
{
    let pre = update_actions(ps.drop_last(), new);
    let all = update_actions(ps, new);
    if k < pre.len() {
        lemma_update_spawns(ps.drop_last(), new, k);
        assert(all[k] == pre[k]);
    } else {
        let p = ps.last();
        lemma_find_program(new, p.name);
        let own = update_actions_of(p, new);
        assert(all[k] == own[k - pre.len()]);
    }
}

proof fn lemma_add_spawns(ps: Seq<ProgramView>, new: Seq<ProgramView>, k: int)
    requires
        0 <= k < add_actions(ps, new).len(),
    ensures
        add_actions(ps, new)[k] matches ActionView::Spawn(n, c, b) ==> b && exists|j: int|
            0 <= j < new.len() && #[trigger] new[j].name == n && c == new[j].config.num_processes
                && new[j].config.autostart,
    decreases new.len(),
{
    let pre = add_actions(ps, new.drop_last());
    let all = add_actions(ps, new);
    if k < pre.len() {
        lemma_add_spawns(ps, new.drop_last(), k);
        assert(all[k] == pre[k]);
        if all[k] is Spawn {
            let j = choose|j: int|
                0 <= j < new.drop_last().len() && #[trigger] new.drop_last()[j].name == all[k]->Spawn_0;
            assert(new.drop_last()[j] == new[j]);
        }
    } else {
        assert(new[new.len() - 1] == new.last());
    }
}

proof fn lemma_stop_all_stops(ps: Seq<ProgramView>, k: int)
    requires
        0 <= k < stop_all(ps).len(),
    ensures
        stop_all(ps)[k] is Stop,
    decreases ps.len(),
{
    let pre = stop_all(ps.drop_last());
    if k < pre.len() {
        lemma_stop_all_stops(ps.drop_last(), k);
        assert(stop_all(ps)[k] == pre[k]);
    }
}

/// Every launch that a reload asks for is of a program of the new
/// configuration that starts automatically, with as many processes as that
/// configuration gives it.
pub proof fn law_reload_spawns_as_configured(ps: Seq<ProgramView>, t: Taskmaster, now: u64, k: int)
    requires
        0 <= k < message_step(ps, ThreadMessage::ReloadConfig(t), now).1.len(),
    ensures
        message_step(ps, ThreadMessage::ReloadConfig(t), now).1[k] matches ActionView::Spawn(n, c, b)
            ==> b && exists|j: int|
            0 <= j < t@.len() && #[trigger] t@[j].name == n && c == t@[j].config.num_processes
                && t@[j].config.autostart,
{
    let new = t@;
    let acts = message_step(ps, ThreadMessage::ReloadConfig(t), now).1;
    let u = update_actions(ps, new);
    let a = add_actions(ps, new);
    let st = stop_all(removed_programs(ps, new));
    if k < u.len() {
        lemma_update_spawns(ps, new, k);
        assert(acts[k] == u[k]);
    } else if k < u.len() + a.len() {
        lemma_add_spawns(ps, new, k - u.len());
        assert(acts[k] == a[k - u.len()]);
    } else if k < u.len() + a.len() + st.len() {
        lemma_stop_all_stops(removed_programs(ps, new), k - u.len() - a.len());
        assert(acts[k] == st[k - u.len() - a.len()]);
    }
}

proof fn lemma_update_listed(ps: Seq<ProgramView>, new: Seq<ProgramView>, i: int, x: ActionView)
    requires
        0 <= i < ps.len(),
        update_actions_of(ps[i], new).contains(x),
    ensures
        update_actions(ps, new).contains(x),
    decreases ps.len(),
{
    let pre = update_actions(ps.drop_last(), new);
    let all = update_actions(ps, new);
    if i < ps.len() - 1 {
        assert(ps.drop_last()[i] == ps[i]);
        lemma_update_listed(ps.drop_last(), new, i, x);
        let k = choose|k: int| 0 <= k < pre.len() && pre[k] == x;
        assert(all[k] == x);
    } else {
        let own = update_actions_of(ps.last(), new);
        let k = choose|k: int| 0 <= k < own.len() && own[k] == x;
        assert(all[pre.len() + k] == x);
    }
}

/// A reload that changes the configuration of a current program ends its
/// running children the way its old configuration says, and launches it again
/// with the new number of processes when it starts automatically.
pub proof fn law_reload_relaunches_changed(ps: Seq<ProgramView>, t: Taskmaster, now: u64, i: int, j: int)
    requires
        names_distinct(t@),
        0 <= i < ps.len(),
        0 <= j < t@.len(),
        t@[j].name == ps[i].name,
        t@[j].config != ps[i].config,
    ensures
        t@[j].config.autostart ==> message_step(ps, ThreadMessage::ReloadConfig(t), now).1.contains(
            ActionView::Spawn(ps[i].name, t@[j].config.num_processes as int, true),
        ),
        ps[i].childs.len() > 0 ==> message_step(ps, ThreadMessage::ReloadConfig(t), now).1.contains(
            stop_of(ps[i]),
        ),
{
    let new = t@;
    lemma_find_program(new, ps[i].name);
    let f = find_program(new, ps[i].name);
    assert(f == j);
    let own = update_actions_of(ps[i], new);
    let acts = message_step(ps, ThreadMessage::ReloadConfig(t), now).1;
    let u = update_actions(ps, new);
    if new[j].config.autostart {
        let x = ActionView::Spawn(ps[i].name, new[j].config.num_processes as int, true);
        assert(own[own.len() - 1] == x);
        lemma_update_listed(ps, new, i, x);
        let k = choose|k: int| 0 <= k < u.len() && u[k] == x;
        assert(acts[k] == x);
    }
    if ps[i].childs.len() > 0 {
        let x = stop_of(ps[i]);
        assert(own[0] == x);
        lemma_update_listed(ps, new, i, x);
        let k = choose|k: int| 0 <= k < u.len() && u[k] == x;
        assert(acts[k] == x);
    }
}

/// When a check relaunches a program it asks for exactly the processes that
/// are missing, counts the program as launched at `now`, and forgets the
/// unexpected exit that asked for it.
pub proof fn law_check_fills_up(p: ProgramView, st: Seq<ChildWait>, now: u64)
    ensures
        checked(p, st, now).1 > 0 ==> checked(p, st, now).0.childs.len() + checked(p, st, now).1
            == p.config.num_processes && checked(p, st, now).0.last_launch_time == now
            && !checked(p, st, now).0.unexpected_error_code,
        checked(p, st, now).1 == 0 ==> checked(p, st, now).0.last_launch_time == p.last_launch_time,
{
}

/// A program that stops only on unexpected exits and has one remembered is
/// relaunched by the first check that finds it short of processes, not stopped
/// by hand, with retries left and past its minimum runtime, even when no child
/// exits in that check.
pub proof fn law_crash_relaunched(p: ProgramView, st: Seq<ChildWait>, now: u64)
    requires
        p.unexpected_error_code,
        !p.is_stopped_manually,
        p.config.restart_policy == _Restart::UnexpectedExits,
        exit_count(st) == 0,
        p.retry_count < p.config.max_relauch_retry,
        elapsed_secs(now, p.last_launch_time) >= min_runtime(p.config),
        still_running(p.childs, st).len() < p.config.num_processes,
    ensures
        checked(p, st, now).1 == p.config.num_processes - still_running(p.childs, st).len(),
        checked(p, st, now).1 > 0,
{
}

/// Starting a program that is not running launches all the processes its
/// configuration asks for, and nothing else; restarting a running one ends
/// its children as configured, then launches them all again.
pub proof fn law_start_launches_configured(ps: Seq<ProgramView>, n: String, now: u64, i: int)
    requires
        names_distinct(ps),
        0 <= i < ps.len(),
        ps[i].name == n@,
    ensures
        ps[i].childs.len() == 0 ==> message_step(ps, ThreadMessage::Start(n), now).1 == seq![
            ActionView::Spawn(n@, ps[i].config.num_processes as int, true),
            ActionView::Reply(Reply::ActionDone),
        ],
        ps[i].childs.len() > 0 ==> message_step(ps, ThreadMessage::Restart(n), now).1 == seq![
            stop_of(ps[i]),
            ActionView::Spawn(n@, ps[i].config.num_processes as int, true),
            ActionView::Reply(Reply::ActionDone),
        ],
        message_step(ps, ThreadMessage::Start(n), now).0.len() == ps.len(),
        ps[i].childs.len() == 0 ==> message_step(ps, ThreadMessage::Start(n), now).0[i].childs
            == ps[i].childs && message_step(ps, ThreadMessage::Start(n), now).0[i].last_launch_time
            == now && !message_step(ps, ThreadMessage::Start(n), now).0[i].is_stopped_manually,
{
    lemma_find_program(ps, n@);
    assert(find_program(ps, n@) == i);
}

/// At start every program that starts automatically is launched with all its
/// processes, and only such programs are launched.
pub proof fn law_autostart_launches_configured(ps: Seq<ProgramView>, k: int)
    ensures
        0 <= k < ps.len() && ps[k].config.autostart ==> autostart_actions(ps).contains(
            ActionView::Spawn(ps[k].name, ps[k].config.num_processes as int, true),
        ),
        0 <= k < autostart_actions(ps).len() ==> (exists|j: int|
            0 <= j < ps.len() && #[trigger] ps[j].config.autostart && autostart_actions(ps)[k]
                == ActionView::Spawn(ps[j].name, ps[j].config.num_processes as int, true)),
    decreases ps.len(),
{
    let pre = ps.drop_last();
    let head = autostart_actions(pre);
    let all = autostart_actions(ps);
    if ps.len() > 0 {
        if 0 <= k < ps.len() && ps[k].config.autostart {
            let x = ActionView::Spawn(ps[k].name, ps[k].config.num_processes as int, true);
            if k < ps.len() - 1 {
                assert(pre[k] == ps[k]);
                law_autostart_launches_configured(pre, k);
                let m = choose|m: int| 0 <= m < head.len() && head[m] == x;
                assert(all[m] == x);
            } else {
                assert(all[head.len() as int] == x);
            }
        }
        if 0 <= k < all.len() {
            if k < head.len() {
                law_autostart_launches_configured(pre, k);
                let j = choose|j: int|
                    0 <= j < pre.len() && #[trigger] pre[j].config.autostart && head[k]
                        == ActionView::Spawn(pre[j].name, pre[j].config.num_processes as int, true);
                assert(ps[j] == pre[j]);
                assert(all[k] == head[k]);
            } else {
                assert(ps[ps.len() - 1].config.autostart);
            }
        }
    }
}

proof fn lemma_status_all(ps: Seq<ProgramView>)
    ensures
        status_lines(ps, None).len() == ps.len(),
        forall|k: int|
            0 <= k < ps.len() ==> #[trigger] status_lines(ps, None)[k] == ActionView::Log(
                NoticeView::Status(ps[k].name, ps[k].childs),
            ),
    decreases ps.len(),
{
    if ps.len() > 0 {
        let pre = ps.drop_last();
        lemma_status_all(pre);
        assert forall|k: int| 0 <= k < ps.len() implies #[trigger] status_lines(ps, None)[k]
            == ActionView::Log(NoticeView::Status(ps[k].name, ps[k].childs)) by {
            if k < pre.len() {
                assert(pre[k] == ps[k]);
                assert(status_lines(ps, None)[k] == status_lines(pre, None)[k]);
            }
        }
    }
}

proof fn lemma_status_one(ps: Seq<ProgramView>, n: Seq<char>)
    requires
        names_distinct(ps),
    ensures
        !has_name(ps, n) ==> status_lines(ps, Some(n)).len() == 0,
        forall|i: int|
            0 <= i < ps.len() && #[trigger] ps[i].name == n ==> status_lines(ps, Some(n)) == seq![
                ActionView::Log(NoticeView::Status(n, ps[i].childs)),
            ],
    decreases ps.len(),
{
    if ps.len() > 0 {
        let pre = ps.drop_last();
        assert(names_distinct(pre)) by {
            assert forall|a: int, b: int|
                0 <= a < pre.len() && 0 <= b < pre.len() && #[trigger] pre[a].name
                    == #[trigger] pre[b].name implies a == b by {
                assert(pre[a] == ps[a] && pre[b] == ps[b]);
            }
        }
        lemma_status_one(pre, n);
        if !has_name(ps, n) {
            if has_name(pre, n) {
                let j = choose|j: int| 0 <= j < pre.len() && #[trigger] pre[j].name == n;
                assert(ps[j] == pre[j]);
            }
            assert(ps[ps.len() - 1].name != n);
        }
        assert forall|i: int|
            0 <= i < ps.len() && #[trigger] ps[i].name == n implies status_lines(ps, Some(n)) == seq![
                ActionView::Log(NoticeView::Status(n, ps[i].childs)),
            ] by {
            if i < pre.len() {
                assert(pre[i] == ps[i]);
                assert(ps[ps.len() - 1].name != n);
                assert(status_lines(ps, Some(n)) =~= status_lines(pre, Some(n)));
            } else {
                assert(!has_name(pre, n)) by {
                    if has_name(pre, n) {
                        let j = choose|j: int| 0 <= j < pre.len() && #[trigger] pre[j].name == n;
                        assert(ps[j] == pre[j]);
                    }
                }
                assert(status_lines(ps, Some(n)) =~= seq![
                    ActionView::Log(NoticeView::Status(n, ps[i].childs)),
                ]);
            }
        }
    }
}

/// A status of every program reports each program, in order, with its running
/// children, then answers; a status of one program reports just that program
/// (nothing when no program has the name). Neither changes any program.
pub proof fn law_status_reports(ps: Seq<ProgramView>, n: String, now: u64, i: int)
    requires
        names_distinct(ps),
    ensures
        message_step(ps, ThreadMessage::StatusAll, now).0 == ps,
        message_step(ps, ThreadMessage::StatusAll, now).1.len() == ps.len() + 1,
        0 <= i < ps.len() ==> message_step(ps, ThreadMessage::StatusAll, now).1[i] == ActionView::Log(
            NoticeView::Status(ps[i].name, ps[i].childs),
        ),
        message_step(ps, ThreadMessage::StatusAll, now).1[ps.len() as int] == ActionView::Reply(
            Reply::StatusDone,
        ),
        message_step(ps, ThreadMessage::Status(n), now).0 == ps,
        0 <= i < ps.len() && ps[i].name == n@ ==> message_step(ps, ThreadMessage::Status(n), now).1
            == seq![
            ActionView::Log(NoticeView::Status(n@, ps[i].childs)),
            ActionView::Reply(Reply::StatusDone),
        ],
        !has_name(ps, n@) ==> message_step(ps, ThreadMessage::Status(n), now).1 == seq![
            ActionView::Reply(Reply::StatusDone),
        ],
{
    lemma_status_all(ps);
    lemma_status_one(ps, n@);
    if 0 <= i < ps.len() && ps[i].name == n@ {
        assert(message_step(ps, ThreadMessage::Status(n), now).1 =~= seq![
            ActionView::Log(NoticeView::Status(n@, ps[i].childs)),
            ActionView::Reply(Reply::StatusDone),
        ]);
    }
    if !has_name(ps, n@) {
        assert(message_step(ps, ThreadMessage::Status(n), now).1 =~= seq![
            ActionView::Reply(Reply::StatusDone),
        ]);
    }
}

} // verus!
