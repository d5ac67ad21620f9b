//! Which findings the user is told about: each open finding once, while
//! notifications are enabled.
use vstd::prelude::*;
use crate::text::str_eq;
use crate::types::Finding;

verus! {

/// The texts held by a list of strings.
pub open spec fn text_set(v: Seq<String>) -> Set<Seq<char>> {
    Set::new(|k: Seq<char>| exists|j: int| 0 <= j < v.len() && v[j]@ == k)
}

/// The ids of the findings.
pub open spec fn finding_ids(fs: Seq<Finding>) -> Set<Seq<char>> {
    Set::new(|k: Seq<char>| exists|j: int| 0 <= j < fs.len() && fs[j].id@ == k)
}

/// Whether the finding at `i` is new: its id was not notified before and
/// no earlier finding shares it.
pub open spec fn fresh_at(fs: Seq<Finding>, notified: Set<Seq<char>>, i: int) -> bool {
    &&& !notified.contains(fs[i].id@)
    &&& forall|j: int| 0 <= j < i ==> fs[j].id@ != fs[i].id@
}

/// The positions of the first `n` findings that are notified, in order.
pub open spec fn fresh_positions(fs: Seq<Finding>, notified: Set<Seq<char>>, enabled: bool, n: nat) -> Seq<
    usize,
>
    decreases n,
{
    if n == 0 {
        Seq::empty()
    } else {
        let p = fresh_positions(fs, notified, enabled, (n - 1) as nat);
        if enabled && fresh_at(fs, notified, n - 1) {
            p.push((n - 1) as usize)
        } else {
            p
        }
    }
}

fn holds(v: &Vec<String>, k: &str) -> (r: bool)
    ensures
        r == text_set(v@).contains(k@),
{
    let mut j: usize = 0;
    while j < v.len()
        invariant
            j <= v@.len(),
            forall|m: int| 0 <= m < j ==> v@[m]@ != k@,
        decreases v@.len() - j,
    {
        if str_eq(v[j].as_str(), k) {
            assert(v@[j as int]@ == k@);
            return true;
        }
        j = j + 1;
    }
    false
}

fn holds_finding(fs: &Vec<Finding>, k: &str) -> (r: bool)
    ensures
        r == finding_ids(fs@).contains(k@),
{
    let mut j: usize = 0;
    while j < fs.len()
        invariant
            j <= fs@.len(),
            forall|m: int| 0 <= m < j ==> fs@[m].id@ != k@,
        decreases fs@.len() - j,
    {
        if str_eq(fs[j].id.as_str(), k) {
            assert(fs@[j as int].id@ == k@);
            return true;
        }
        j = j + 1;
    }
    false
}

/// Picks the findings to notify, in order: where notifications are enabled,
/// each finding whose id has not been notified yet. Afterwards `notified`
/// holds the ids of the open findings that have been notified.
pub fn findings_to_notify(notified: &mut Vec<String>, findings: &Vec<Finding>, enabled: bool) -> (r: Vec<
    usize,
>)
    ensures
        r@ == fresh_positions(findings@, text_set(old(notified)@), enabled, findings@.len()),
        text_set(final(notified)@) == (if enabled {
            finding_ids(findings@)
        } else {
            text_set(old(notified)@).intersect(finding_ids(findings@))
        }),
{
    let ghost n0 = text_set(notified@);
    let mut r: Vec<usize> = Vec::new();
    let mut i: usize = 0;
    while i < findings.len()
        invariant
            i <= findings@.len(),
            n0 == text_set(old(notified)@),
            text_set(notified@) == (if enabled {
                n0.union(finding_ids(findings@.take(i as int)))
            } else {
                n0
            }),
            r@ == fresh_positions(findings@, n0, enabled, i as nat),
        decreases findings@.len() - i,
    {
        let ghost before = notified@;
        let ghost prefix = findings@.take(i as int);
        let ghost next = findings@.take(i + 1);
        proof {
            assert(finding_ids(next) =~= finding_ids(prefix).insert(findings@[i as int].id@)) by {
                assert forall|k: Seq<char>| finding_ids(next).contains(k) implies finding_ids(prefix).insert(
                    findings@[i as int].id@,
                ).contains(k) by {
                    let j = choose|j: int| 0 <= j < next.len() && next[j].id@ == k;
                    if j < i {
                        assert(prefix[j] == next[j]);
                    }
                }
                assert forall|k: Seq<char>| finding_ids(prefix).insert(findings@[i as int].id@).contains(
                    k,
                ) implies finding_ids(next).contains(k) by {
                    if k == findings@[i as int].id@ {
                        assert(next[i as int] == findings@[i as int]);
                    } else {
                        let j = choose|j: int| 0 <= j < prefix.len() && prefix[j].id@ == k;
                        assert(next[j] == prefix[j]);
                    }
                }
            }
        }
        let fresh = enabled && !holds(notified, findings[i].id.as_str());
        proof {
            if enabled {
                let id = findings@[i as int].id@;
                if fresh_at(findings@, n0, i as int) {
                    assert(!finding_ids(prefix).contains(id)) by {
                        if finding_ids(prefix).contains(id) {
                            let j = choose|j: int| 0 <= j < prefix.len() && prefix[j].id@ == id;
                            assert(findings@[j] == prefix[j]);
                        }
                    }
                } else if !n0.contains(id) {
                    let j = choose|j: int| 0 <= j < i && findings@[j].id@ == id;
                    assert(prefix[j] == findings@[j]);
                    assert(finding_ids(prefix).contains(id));
                }
            }
        }
        if fresh {
            notified.push(findings[i].id.clone());
            r.push(i);
            proof {
                assert(text_set(notified@) =~= text_set(before).insert(findings@[i as int].id@)) by {
                    assert forall|k: Seq<char>| text_set(notified@).contains(k) implies text_set(
                        before,
                    ).insert(findings@[i as int].id@).contains(k) by {
                        let j = choose|j: int| 0 <= j < notified@.len() && notified@[j]@ == k;
                        if j < before.len() {
                            assert(before[j] == notified@[j]);
                        }
                    }
                    assert forall|k: Seq<char>| text_set(before).insert(
                        findings@[i as int].id@,
                    ).contains(k) implies text_set(notified@).contains(k) by {
                        if k == findings@[i as int].id@ {
                            assert(notified@[before.len() as int]@ == k);
                        } else {
                            let j = choose|j: int| 0 <= j < before.len() && before[j]@ == k;
                            assert(notified@[j] == before[j]);
                        }
                    }
                }
                assert(enabled && fresh_at(findings@, n0, i as int));
            }
        } else {
            proof {
                if enabled {
                    assert(text_set(notified@) =~= n0.union(finding_ids(next)));
                }
                assert(!(enabled && fresh_at(findings@, n0, i as int))) by {
                    if enabled {
                        let id = findings@[i as int].id@;
                        assert(text_set(notified@).contains(id));
                        if !n0.contains(id) {
                            assert(finding_ids(prefix).contains(id));
                            let j = choose|j: int| 0 <= j < prefix.len() && prefix[j].id@ == id;
                            assert(findings@[j] == prefix[j]);
                        }
                    }
                }
            }
        }
        i = i + 1;
    }
    proof {
        assert(findings@.take(findings@.len() as int) =~= findings@);
    }
    let ghost grown = text_set(notified@);
    let mut kept: Vec<String> = Vec::new();
    let mut j: usize = 0;
    while j < notified.len()
        invariant
            j <= notified@.len(),
            grown == text_set(notified@),
            text_set(kept@) == text_set(notified@.take(j as int)).intersect(finding_ids(findings@)),
        decreases notified@.len() - j,
    {
        let ghost before = kept@;
        let ghost prefix = notified@.take(j as int);
        let ghost next = notified@.take(j + 1);
        proof {
            assert(text_set(next) =~= text_set(prefix).insert(notified@[j as int]@)) by {
                assert forall|k: Seq<char>| text_set(next).contains(k) implies text_set(prefix).insert(
                    notified@[j as int]@,
                ).contains(k) by {
                    let m = choose|m: int| 0 <= m < next.len() && next[m]@ == k;
                    if m < j {
                        assert(prefix[m] == next[m]);
                    }
                }
                assert forall|k: Seq<char>| text_set(prefix).insert(notified@[j as int]@).contains(
                    k,
                ) implies text_set(next).contains(k) by {
                    if k == notified@[j as int]@ {
                        assert(next[j as int] == notified@[j as int]);
                    } else {
                        let m = choose|m: int| 0 <= m < prefix.len() && prefix[m]@ == k;
                        assert(next[m] == prefix[m]);
                    }
                }
            }
        }
        if holds_finding(findings, notified[j].as_str()) {
            kept.push(notified[j].clone());
            proof {
                assert(text_set(kept@) =~= text_set(before).insert(notified@[j as int]@)) by {
                    assert forall|k: Seq<char>| text_set(kept@).contains(k) implies text_set(
                        before,
                    ).insert(notified@[j as int]@).contains(k) by {
                        let m = choose|m: int| 0 <= m < kept@.len() && kept@[m]@ == k;
                        if m < before.len() {
                            assert(before[m] == kept@[m]);
                        }
                    }
                    assert forall|k: Seq<char>| text_set(before).insert(
                        notified@[j as int]@,
                    ).contains(k) implies text_set(kept@).contains(k) by {
                        if k == notified@[j as int]@ {
                            assert(kept@[before.len() as int]@ == k);
                        } else {
                            let m = choose|m: int| 0 <= m < before.len() && before[m]@ == k;
                            assert(kept@[m] == before[m]);
                        }
                    }
                }
                assert(text_set(kept@) =~= text_set(next).intersect(finding_ids(findings@)));
            }
        } else {
            proof {
                assert(text_set(kept@) =~= text_set(next).intersect(finding_ids(findings@)));
            }
        }
        j = j + 1;
    }
    proof {
        assert(notified@.take(notified@.len() as int) =~= notified@);
        if enabled {
            assert(text_set(kept@) =~= finding_ids(findings@));
        } else {
            assert(text_set(kept@) =~= text_set(old(notified)@).intersect(finding_ids(findings@)));
        }
    }
    *notified = kept;
    r
}

/// Whether position `p` is among the first `n` and its finding's id was
/// not notified.
pub open spec fn new_position(fs: Seq<Finding>, notified: Set<Seq<char>>, n: nat, p: usize) -> bool {
    p < n && !notified.contains(fs[p as int].id@)
}

proof fn lemma_fresh_positions_are_new(fs: Seq<Finding>, notified: Set<Seq<char>>, enabled: bool, n: nat)
    requires
        n <= fs.len(),
        fs.len() <= usize::MAX,
    ensures
        forall|k: int|
            0 <= k < fresh_positions(fs, notified, enabled, n).len() ==> new_position(
                fs,
                notified,
                n,
                #[trigger] fresh_positions(fs, notified, enabled, n)[k],
            ),
    decreases n,
{
    if n > 0 {
        let prev = fresh_positions(fs, notified, enabled, (n - 1) as nat);
        lemma_fresh_positions_are_new(fs, notified, enabled, (n - 1) as nat);
        let all = fresh_positions(fs, notified, enabled, n);
        assert forall|k: int| 0 <= k < all.len() implies new_position(fs, notified, n, #[trigger] all[k]) by {
            if k < prev.len() {
                assert(all[k] == prev[k]);
                assert(new_position(fs, notified, (n - 1) as nat, prev[k]));
            } else {
                assert(all[k] == (n - 1) as usize);
            }
        }
    }
}

proof fn lemma_known_ids_give_no_notice(fs: Seq<Finding>, enabled: bool, n: nat)
    requires
        n <= fs.len(),
    ensures
        fresh_positions(fs, finding_ids(fs), enabled, n).len() == 0,
    decreases n,
{
    if n > 0 {
        lemma_known_ids_give_no_notice(fs, enabled, (n - 1) as nat);
        assert(finding_ids(fs).contains(fs[n - 1].id@));
    }
}

/// A finding is announced once: after a round has recorded the ids of its
/// findings as notified, a later round announces none with those ids, and
/// the same findings again give no notice at all.
pub proof fn law_finding_is_notified_once(fs: Seq<Finding>, later: Seq<Finding>, enabled: bool)
    requires
        later.len() <= usize::MAX,
    ensures
        forall|k: int|
            0 <= k < fresh_positions(later, finding_ids(fs), enabled, later.len()).len()
                ==> new_position(
                later,
                finding_ids(fs),
                later.len(),
                #[trigger] fresh_positions(later, finding_ids(fs), enabled, later.len())[k],
            ),
        fresh_positions(fs, finding_ids(fs), enabled, fs.len()).len() == 0,
{
    lemma_fresh_positions_are_new(later, finding_ids(fs), enabled, later.len());
    lemma_known_ids_give_no_notice(fs, enabled, fs.len());
}

} // verus!
