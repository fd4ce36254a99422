//! Which ports to link when a meter stream is attached to a sink: the
//! sink's monitor ports go to the meter stream's input ports, both taken in
//! name order. Creating the links is left to the caller.

use vstd::prelude::*;
use crate::text::{chars_of, starts_with_spec, str_starts_with};

verus! {

/// String order: lexicographic by characters (the order of `str`'s `Ord`,
/// since UTF-8 keeps the order of code points).
pub open spec fn lex_le(a: Seq<char>, b: Seq<char>) -> bool
    decreases a.len(),
{
    if a.len() == 0 {
        true
    } else if b.len() == 0 {
        false
    } else if a[0] != b[0] {
        a[0] < b[0]
    } else {
        lex_le(a.drop_first(), b.drop_first())
    }
}

proof fn lemma_lex_total(a: Seq<char>, b: Seq<char>)
    ensures
        lex_le(a, b) || lex_le(b, a),
    decreases a.len(),
{
    if a.len() > 0 && b.len() > 0 && a[0] == b[0] {
        lemma_lex_total(a.drop_first(), b.drop_first());
    }
}

proof fn lemma_lex_antisymmetric(a: Seq<char>, b: Seq<char>)
    requires
        lex_le(a, b),
        lex_le(b, a),
    ensures
        a == b,
    decreases a.len(),
{
    if a.len() == 0 {
        assert(b.len() == 0);
        assert(a =~= b);
    } else {
        lemma_lex_antisymmetric(a.drop_first(), b.drop_first());
        assert(a =~= seq![a[0]] + a.drop_first());
        assert(b =~= seq![b[0]] + b.drop_first());
    }
}

proof fn lemma_lex_transitive(a: Seq<char>, b: Seq<char>, c: Seq<char>)
    requires
        lex_le(a, b),
        lex_le(b, c),
    ensures
        lex_le(a, c),
    decreases a.len(),
{
    if a.len() > 0 && b.len() > 0 && c.len() > 0 && a[0] == b[0] && b[0] == c[0] {
        lemma_lex_transitive(a.drop_first(), b.drop_first(), c.drop_first());
    }
}

/// Whether `a` comes before or equals `b` in string order.
fn lex_le_exec(a: &Vec<char>, b: &Vec<char>) -> (r: bool)
    ensures
        r == lex_le(a@, b@),
{
    let mut i: usize = 0;
    proof {
        assert(a@.skip(0) =~= a@);
        assert(b@.skip(0) =~= b@);
    }
    while i < a.len() && i < b.len() && a[i] == b[i]
        invariant
            i <= a.len(),
            i <= b.len(),
            lex_le(a@, b@) == lex_le(a@.skip(i as int), b@.skip(i as int)),
        decreases a.len() - i,
    {
        proof {
            assert(a@.skip(i as int).drop_first() =~= a@.skip(i + 1));
            assert(b@.skip(i as int).drop_first() =~= b@.skip(i + 1));
        }
        i += 1;
    }
    if i == a.len() {
        true
    } else if i == b.len() {
        false
    } else {
        a[i] < b[i]
    }
}

/// What linking reads of a port.
#[derive(Debug, Clone)]
pub struct PortInfo {
    /// The port's id.
    pub id: u32,
    /// The id of the node the port belongs to.
    pub node_id: u32,
    /// Whether the port is an output port.
    pub is_output: bool,
    /// The port's name.
    pub name: String,
}

/// A meter stream waiting for its links to a sink.
#[derive(Debug, Clone)]
pub struct PendingMeterLink {
    /// The sink node whose monitor ports are captured.
    pub sink_node_id: u32,
    /// The sink node's name.
    pub sink_name: String,
    /// The meter stream's node (0 while not yet discovered).
    pub meter_node_id: u32,
    /// The meter stream's node name.
    pub meter_name: String,
}

/// The predicate "is named `n`".
pub open spec fn named(n: Seq<char>) -> spec_fn(PortInfo) -> bool {
    |p: PortInfo| p.name@ == n
}

/// The ports named `n`, in their order.
pub open spec fn with_name(s: Seq<PortInfo>, n: Seq<char>) -> Seq<PortInfo> {
    s.filter(named(n))
}

/// Ports in name order.
pub open spec fn sorted_by_name(s: Seq<PortInfo>) -> bool {
    forall|i: int, j: int| 0 <= i < j < s.len() ==> lex_le(s[i].name@, s[j].name@)
}

/// `res` is `orig` stably sorted by name: in name order, and the ports of
/// each name in the order they had in `orig`.
pub open spec fn is_name_sort_of(res: Seq<PortInfo>, orig: Seq<PortInfo>) -> bool {
    &&& sorted_by_name(res)
    &&& forall|n: Seq<char>| #[trigger] with_name(res, n) == with_name(orig, n)
}

proof fn lemma_with_name_add(a: Seq<PortInfo>, b: Seq<PortInfo>, n: Seq<char>)
    ensures
        with_name(a + b, n) == with_name(a, n) + with_name(b, n),
{
    Seq::filter_distributes_over_add(a, b, named(n));
}

proof fn lemma_with_name_single(x: PortInfo, n: Seq<char>)
    ensures
        with_name(seq![x], n) == if x.name@ == n { seq![x] } else { Seq::<PortInfo>::empty() },
{
    reveal(Seq::filter);
    let s = seq![x];
    assert(s.drop_last() =~= Seq::<PortInfo>::empty());
    assert(s.drop_last().filter(named(n)) =~= Seq::<PortInfo>::empty());
    if x.name@ == n {
        assert(Seq::<PortInfo>::empty().push(x) =~= seq![x]);
    }
}

proof fn lemma_with_name_none(s: Seq<PortInfo>, n: Seq<char>)
    requires
        forall|k: int| 0 <= k < s.len() ==> s[k].name@ != n,
    ensures
        with_name(s, n) == Seq::<PortInfo>::empty(),
    decreases s.len(),
{
    reveal(Seq::filter);
    if s.len() > 0 {
        lemma_with_name_none(s.drop_last(), n);
    }
}

proof fn lemma_with_name_unfold(t: Seq<PortInfo>, n: Seq<char>)
    requires
        t.len() > 0,
    ensures
        with_name(t, n) == if t.last().name@ == n {
            with_name(t.drop_last(), n).push(t.last())
        } else {
            with_name(t.drop_last(), n)
        },
{
    reveal(Seq::filter);
}

/// Inserting `x` after the ports whose names come at or before its own
/// keeps the order and adds `x` last among the ports of its name.
proof fn lemma_insert_sorted(s: Seq<PortInfo>, x: PortInfo, j: int)
    requires
        sorted_by_name(s),
        0 <= j <= s.len(),
        forall|k: int| 0 <= k < j ==> lex_le(s[k].name@, x.name@),
        forall|k: int| j <= k < s.len() ==> !lex_le(s[k].name@, x.name@),
    ensures
        sorted_by_name(s.insert(j, x)),
        forall|n: Seq<char>| #[trigger] with_name(s.insert(j, x), n) == with_name(s.push(x), n),
{
    let t = s.insert(j, x);
    assert forall|a: int, b: int| 0 <= a < b < t.len() implies lex_le(t[a].name@, t[b].name@) by {
        if b == j {
            assert(t[a] == s[a]);
        } else if a == j {
            assert(t[b] == s[b - 1]);
            lemma_lex_total(s[b - 1].name@, x.name@);
        } else {
            let a0 = if a < j { a } else { a - 1 };
            let b0 = if b < j { b } else { b - 1 };
            assert(t[a] == s[a0]);
            assert(t[b] == s[b0]);
        }
    }
    assert(t =~= s.take(j) + seq![x] + s.skip(j));
    assert(s =~= s.take(j) + s.skip(j));
    assert(s.push(x) =~= s.take(j) + s.skip(j) + seq![x]);
    assert forall|n: Seq<char>| #[trigger] with_name(t, n) == with_name(s.push(x), n) by {
        lemma_with_name_add(s.take(j) + seq![x], s.skip(j), n);
        lemma_with_name_add(s.take(j), seq![x], n);
        lemma_with_name_add(s.take(j) + s.skip(j), seq![x], n);
        lemma_with_name_add(s.take(j), s.skip(j), n);
        lemma_with_name_single(x, n);
        if x.name@ == n {
            assert forall|k: int| 0 <= k < s.skip(j).len() implies s.skip(j)[k].name@ != n by {
                assert(s.skip(j)[k] == s[j + k]);
                assert(!lex_le(s[j + k].name@, x.name@));
                lemma_lex_total(x.name@, x.name@);
            }
            lemma_with_name_none(s.skip(j), n);
            assert(with_name(s.skip(j), n) + seq![x] =~= seq![x]);
            assert(with_name(s.take(j), n) + seq![x] + Seq::<PortInfo>::empty() =~= with_name(s.take(j), n) + seq![x]);
        } else {
            assert(with_name(s.take(j), n) + Seq::<PortInfo>::empty() =~= with_name(s.take(j), n));
            assert(with_name(s.take(j), n) + with_name(s.skip(j), n) + Seq::<PortInfo>::empty() =~= with_name(s.take(j), n)
                + with_name(s.skip(j), n));
        }
    }
}

/// Inserts `x` into a name-sorted list after all ports whose names come at
/// or before its own.
fn insert_by_name(v: &mut Vec<PortInfo>, x: PortInfo)
    requires
        sorted_by_name(old(v)@),
    ensures
        sorted_by_name(final(v)@),
        forall|n: Seq<char>| #[trigger] with_name(final(v)@, n) == with_name(old(v)@.push(x), n),
{
    let xn = chars_of(x.name.as_str());
    let mut j: usize = 0;
    while j < v.len() && lex_le_exec(&chars_of(v[j].name.as_str()), &xn)
        invariant
            j <= v.len(),
            xn@ == x.name@,
            forall|k: int| 0 <= k < j ==> lex_le(v@[k].name@, x.name@),
        decreases v.len() - j,
    {
        j += 1;
    }
    proof {
        assert forall|k: int| j <= k < v@.len() implies !lex_le(v@[k].name@, x.name@) by {
            if lex_le(v@[k].name@, x.name@) {
                assert(lex_le(v@[j as int].name@, v@[k].name@));
                if j < k {
                    lemma_lex_transitive(v@[j as int].name@, v@[k].name@, x.name@);
                }
            }
        }
        lemma_insert_sorted(v@, x, j as int);
    }
    v.insert(j, x);
}

/// Stably sorts ports by name (`sort_by` on the names).
pub fn sort_ports_by_name(ports: Vec<PortInfo>) -> (r: Vec<PortInfo>)
    ensures
        is_name_sort_of(r@, ports@),
{
    let ghost orig = ports@;
    let mut src = ports;
    let mut out: Vec<PortInfo> = Vec::new();
    proof {
        assert forall|n: Seq<char>| #[trigger] with_name(out@, n) + with_name(src@, n) == with_name(orig, n) by {
            lemma_with_name_none(out@, n);
            assert(Seq::<PortInfo>::empty() + with_name(src@, n) =~= with_name(src@, n));
        }
    }
    while src.len() > 0
        invariant
            sorted_by_name(out@),
            forall|n: Seq<char>| #[trigger] with_name(out@, n) + with_name(src@, n) == with_name(orig, n),
        decreases src.len(),
    {
        let ghost before_out = out@;
        let ghost before_src = src@;
        let x = src.remove(0);
        insert_by_name(&mut out, x);
        proof {
            assert forall|n: Seq<char>| #[trigger] with_name(out@, n) + with_name(src@, n) == with_name(orig, n) by {
                assert(before_src =~= seq![x] + src@);
                lemma_with_name_add(seq![x], src@, n);
                assert(before_out.push(x) =~= before_out + seq![x]);
                lemma_with_name_add(before_out, seq![x], n);
                assert(with_name(before_out, n) + with_name(before_src, n) == with_name(orig, n));
                assert(with_name(before_out, n) + (with_name(seq![x], n) + with_name(src@, n)) =~= with_name(before_out, n)
                    + with_name(seq![x], n) + with_name(src@, n));
            }
        }
    }
    proof {
        assert forall|n: Seq<char>| #[trigger] with_name(out@, n) == with_name(orig, n) by {
            lemma_with_name_none(src@, n);
            assert(with_name(out@, n) + Seq::<PortInfo>::empty() =~= with_name(out@, n));
        }
    }
    out
}

/// A name whose group is not empty in a sorted list comes at or before the
/// name of the list's last port.
proof fn lemma_group_bounded_by_last(t: Seq<PortInfo>, n: Seq<char>)
    requires
        sorted_by_name(t),
        with_name(t, n).len() > 0,
    ensures
        t.len() > 0,
        lex_le(n, t.last().name@),
{
    let w = with_name(t, n);
    t.lemma_filter_pred(named(n), 0);
    t.lemma_filter_contains_rev(named(n), w[0]);
    assert(w.contains(w[0]));
    let i = choose|i: int| 0 <= i < t.len() && t[i] == w[0];
    if i < t.len() - 1 {
        assert(lex_le(t[i].name@, t[t.len() - 1].name@));
    } else {
        lemma_lex_total(n, n);
    }
}

proof fn lemma_same_name_groups_equal(t1: Seq<PortInfo>, t2: Seq<PortInfo>)
    requires
        sorted_by_name(t1),
        sorted_by_name(t2),
        forall|n: Seq<char>| #[trigger] with_name(t1, n) == with_name(t2, n),
    ensures
        t1 == t2,
    decreases t1.len(),
{
    if t1.len() == 0 {
        if t2.len() > 0 {
            let n = t2.last().name@;
            lemma_with_name_unfold(t2, n);
            lemma_with_name_none(t1, n);
            assert(with_name(t1, n) == with_name(t2, n));
        }
        assert(t1 =~= t2);
    } else {
        let m1 = t1.last().name@;
        lemma_with_name_unfold(t1, m1);
        assert(with_name(t2, m1) == with_name(t1, m1));
        lemma_group_bounded_by_last(t2, m1);
        let m2 = t2.last().name@;
        lemma_with_name_unfold(t2, m2);
        assert(with_name(t1, m2) == with_name(t2, m2));
        lemma_group_bounded_by_last(t1, m2);
        lemma_lex_antisymmetric(m1, m2);
        let x1 = t1.last();
        let x2 = t2.last();
        assert(with_name(t1, m1).last() == x1);
        assert(with_name(t2, m1).last() == x2);
        let d1 = t1.drop_last();
        let d2 = t2.drop_last();
        assert forall|n: Seq<char>| #[trigger] with_name(d1, n) == with_name(d2, n) by {
            lemma_with_name_unfold(t1, n);
            lemma_with_name_unfold(t2, n);
            assert(with_name(t1, n) == with_name(t2, n));
            if n == m1 {
                assert(with_name(d1, n) =~= with_name(t1, n).drop_last());
                assert(with_name(d2, n) =~= with_name(t2, n).drop_last());
            }
        }
        assert(sorted_by_name(d1));
        assert(sorted_by_name(d2));
        lemma_same_name_groups_equal(d1, d2);
        assert(t1 =~= d1.push(x1));
        assert(t2 =~= d2.push(x2));
    }
}

/// Sorting ports by name has one answer: two stable name sorts of the same
/// ports are equal.
pub proof fn law_name_sort_is_unique(s: Seq<PortInfo>, t1: Seq<PortInfo>, t2: Seq<PortInfo>)
    requires
        is_name_sort_of(t1, s),
        is_name_sort_of(t2, s),
    ensures
        t1 == t2,
{
    assert forall|n: Seq<char>| #[trigger] with_name(t1, n) == with_name(t2, n) by {
        assert(with_name(t1, n) == with_name(s, n));
        assert(with_name(t2, n) == with_name(s, n));
    }
    lemma_same_name_groups_equal(t1, t2);
}

/// A monitor port of the sink: an output port of that node whose name
/// starts with `monitor_`.
pub open spec fn is_monitor_port(p: PortInfo, sink_node_id: u32) -> bool {
    p.node_id == sink_node_id && p.is_output && starts_with_spec(p.name@, "monitor_"@)
}

/// An input port of the meter stream.
pub open spec fn is_meter_input(p: PortInfo, meter_node_id: u32) -> bool {
    p.node_id == meter_node_id && !p.is_output
}

/// The links to make, as (output port, input port) pairs, from the sorted
/// monitor ports `m` and the sorted meter inputs `i`: nothing when either is
/// missing; with two or more of each, the two lists paired in order (true
/// stereo); otherwise every monitor port to the first input.
pub open spec fn link_pairs(m: Seq<PortInfo>, i: Seq<PortInfo>) -> Seq<(u32, u32)> {
    if m.len() == 0 || i.len() == 0 {
        Seq::empty()
    } else if m.len() >= 2 && i.len() >= 2 {
        Seq::new(if m.len() <= i.len() { m.len() } else { i.len() }, |k: int| (m[k].id, i[k].id))
    } else {
        Seq::new(m.len(), |k: int| (m[k].id, i[0].id))
    }
}

fn select_ports(ports: &Vec<PortInfo>, node_id: u32, monitors: bool) -> (r: Vec<PortInfo>)
    ensures
        monitors ==> r@ == ports@.filter(|p: PortInfo| is_monitor_port(p, node_id)),
        !monitors ==> r@ == ports@.filter(|p: PortInfo| is_meter_input(p, node_id)),
{
    let ghost f = if monitors {
        |p: PortInfo| is_monitor_port(p, node_id)
    } else {
        |p: PortInfo| is_meter_input(p, node_id)
    };
    let mut r: Vec<PortInfo> = Vec::new();
    let mut k: usize = 0;
    while k < ports.len()
        invariant
            k <= ports.len(),
            f == (if monitors {
                |p: PortInfo| is_monitor_port(p, node_id)
            } else {
                |p: PortInfo| is_meter_input(p, node_id)
            }),
            r@ == ports@.take(k as int).filter(f),
        decreases ports.len() - k,
    {
        let p = &ports[k];
        let keep = if monitors {
            p.node_id == node_id && p.is_output && str_starts_with(p.name.as_str(), "monitor_")
        } else {
            p.node_id == node_id && !p.is_output
        };
        proof {
            reveal(Seq::filter);
            assert(ports@.take(k + 1).drop_last() =~= ports@.take(k as int));
            assert(keep == f(ports@[k as int]));
        }
        if keep {
            r.push(PortInfo { id: p.id, node_id: p.node_id, is_output: p.is_output, name: p.name.clone() });
        }
        k += 1;
    }
    proof {
        assert(ports@.take(ports.len() as int) =~= ports@);
    }
    r
}

/// The links that attach a meter stream to a sink: the sink's monitor ports
/// and the meter's input ports, each stably sorted by name, paired as
/// `link_pairs` says.
pub fn meter_link_pairs(ports: &Vec<PortInfo>, sink_node_id: u32, meter_node_id: u32) -> (r: Vec<(u32, u32)>)
    ensures
        exists|m: Seq<PortInfo>, i: Seq<PortInfo>|
            is_name_sort_of(m, ports@.filter(|p: PortInfo| is_monitor_port(p, sink_node_id)))
                && is_name_sort_of(i, ports@.filter(|p: PortInfo| is_meter_input(p, meter_node_id)))
                && r@ == link_pairs(m, i),
{
    let m = sort_ports_by_name(select_ports(ports, sink_node_id, true));
    let i = sort_ports_by_name(select_ports(ports, meter_node_id, false));
    let mut r: Vec<(u32, u32)> = Vec::new();
    if m.len() == 0 || i.len() == 0 {
        proof {
            assert(r@ =~= link_pairs(m@, i@));
        }
        return r;
    }
    let both_stereo = m.len() >= 2 && i.len() >= 2;
    let count = if both_stereo {
        if m.len() <= i.len() { m.len() } else { i.len() }
    } else {
        m.len()
    };
    let mut k: usize = 0;
    while k < count
        invariant
            k <= count,
            count <= m.len(),
            both_stereo ==> count <= i.len(),
            i.len() > 0,
            both_stereo == (m.len() >= 2 && i.len() >= 2),
            count == (if both_stereo { if m.len() <= i.len() { m.len() } else { i.len() } } else { m.len() }),
            r@.len() == k,
            forall|j: int| 0 <= j < k ==> #[trigger] r@[j] == (if both_stereo {
                (m@[j].id, i@[j].id)
            } else {
                (m@[j].id, i@[0].id)
            }),
        decreases count - k,
    {
        let target = if both_stereo { i[k].id } else { i[0].id };
        r.push((m[k].id, target));
        k += 1;
    }
    proof {
        assert(r@ =~= link_pairs(m@, i@));
    }
    r
}

/// Whether pending link `pl` waits for node `node_id` (its sink or its
/// meter stream).
pub open spec fn waits_for(pl: PendingMeterLink, node_id: u32) -> bool {
    pl.meter_node_id == node_id || pl.sink_node_id == node_id
}

/// Whether an added port belongs to a node that some pending meter link
/// waits for.
pub fn port_concerns_pending(pending: &Vec<PendingMeterLink>, port_node_id: u32) -> (r: bool)
    ensures
        r == exists|k: int| 0 <= k < pending@.len() && #[trigger] waits_for(pending@[k], port_node_id),
{
    let mut k: usize = 0;
    while k < pending.len()
        invariant
            k <= pending.len(),
            forall|j: int| 0 <= j < k ==> !#[trigger] waits_for(pending@[j], port_node_id),
        decreases pending.len() - k,
    {
        if pending[k].meter_node_id == port_node_id || pending[k].sink_node_id == port_node_id {
            proof {
                assert(waits_for(pending@[k as int], port_node_id));
            }
            return true;
        }
        k += 1;
    }
    false
}

} // verus!
