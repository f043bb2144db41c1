//! The board's layer stack, read from the `V7_LAYER<n>*` keys of the board
//! parameters: the entries present among layers 1 to 100, ordered by
//! following each layer's `NEXT` link from the first layer with no valid
//! predecessor, then any layers the chain did not reach in index order.

use vstd::prelude::*;

use crate::text::{dec, owned, parse_i32, parse_i32_str, push_dec, push_str, str_eq};

verus! {

/// One layer of the stack.
#[derive(Debug, Clone, PartialEq, Eq)]
pub struct LayerEntry {
    /// 1-based layer index.
    pub index: i32,
    pub name: String,
    /// Index of the previous layer in the chain.
    pub previous_index: i32,
    /// Index of the next layer in the chain.
    pub next_index: i32,
    pub copper_enabled: bool,
    pub dielectric_material: String,
    /// Colour (BGR-packed).
    pub color: i32,
}

/// What a layer entry holds, as plain values.
pub struct EntryView {
    pub index: i32,
    pub name: Seq<char>,
    pub previous_index: i32,
    pub next_index: i32,
    pub copper_enabled: bool,
    pub dielectric_material: Seq<char>,
    pub color: i32,
}

impl View for LayerEntry {
    type V = EntryView;

    open spec fn view(&self) -> EntryView {
        EntryView {
            index: self.index,
            name: self.name@,
            previous_index: self.previous_index,
            next_index: self.next_index,
            copper_enabled: self.copper_enabled,
            dielectric_material: self.dielectric_material@,
            color: self.color,
        }
    }
}

/// Layers ordered top to bottom.
#[derive(Debug, Clone, PartialEq, Eq)]
pub struct LayerStack {
    pub layers: Vec<LayerEntry>,
}

/// The value of the last pair named `key` (later pairs win).
pub open spec fn last_value(params: Seq<(Seq<char>, Seq<char>)>, key: Seq<char>) -> Option<Seq<char>>
    decreases params.len(),
{
    if params.len() == 0 {
        None
    } else if params.last().0 == key {
        Some(params.last().1)
    } else {
        last_value(params.drop_last(), key)
    }
}

/// The key `V7_LAYER<i><suffix>`.
pub open spec fn layer_key(i: nat, suffix: Seq<char>) -> Seq<char> {
    "V7_LAYER"@ + dec(i) + suffix
}

/// The `i32` a value parses to, or `d`.
pub open spec fn parsed_or(v: Option<Seq<char>>, d: i32) -> i32 {
    match v {
        Some(s) => match parse_i32(s) {
            Some(n) => n,
            None => d,
        },
        None => d,
    }
}

/// The entry of layer `i`, when the parameters name it.
pub open spec fn entry_for(params: Seq<(Seq<char>, Seq<char>)>, i: nat) -> Option<EntryView> {
    match last_value(params, layer_key(i, "NAME"@)) {
        None => None,
        Some(name) => Some(
            EntryView {
                index: i as i32,
                name,
                previous_index: parsed_or(last_value(params, layer_key(i, "PREV"@)), 0),
                next_index: parsed_or(last_value(params, layer_key(i, "NEXT"@)), 0),
                copper_enabled: match last_value(params, layer_key(i, "COPTHICK"@)) {
                    Some(v) => v != "0"@,
                    None => false,
                },
                dielectric_material: match last_value(params, layer_key(i, "DIELTYPE"@)) {
                    Some(v) => v,
                    None => seq![],
                },
                color: parsed_or(last_value(params, layer_key(i, "COLOR"@)), 0),
            },
        ),
    }
}

/// The entries of layers `1..=n` that the parameters name, in index order.
pub open spec fn entries_upto(params: Seq<(Seq<char>, Seq<char>)>, n: nat) -> Seq<EntryView>
    decreases n,
{
    if n == 0 {
        seq![]
    } else {
        let rest = entries_upto(params, (n - 1) as nat);
        match entry_for(params, n) {
            Some(e) => rest.push(e),
            None => rest,
        }
    }
}

/// Position of the entry with layer index `idx`.
pub open spec fn pos_of(es: Seq<EntryView>, idx: i32) -> Option<int>
    decreases es.len(),
{
    if es.len() == 0 {
        None
    } else {
        match pos_of(es.drop_last(), idx) {
            Some(p) => Some(p),
            None => if es.last().index == idx {
                Some(es.len() - 1)
            } else {
                None
            },
        }
    }
}

/// Position of the first entry (from `from` on) with no valid predecessor.
pub open spec fn first_head(es: Seq<EntryView>, from: int) -> Option<int>
    decreases es.len() - from,
{
    if from < 0 || from >= es.len() {
        None
    } else if es[from].previous_index == 0 || pos_of(es, es[from].previous_index) is None {
        Some(from)
    } else {
        first_head(es, from + 1)
    }
}

/// The positions visited following `NEXT` links from `cur`, stopping at a
/// missing layer or one already visited (`fuel` bounds the walk).
pub open spec fn walk(es: Seq<EntryView>, cur: Option<int>, seen: Seq<int>, fuel: nat) -> Seq<int>
    decreases fuel,
{
    if fuel == 0 {
        seen
    } else {
        match cur {
            None => seen,
            Some(p) => if seen.contains(p) || p < 0 || p >= es.len() {
                seen
            } else {
                walk(es, pos_of(es, es[p].next_index), seen.push(p), (fuel - 1) as nat)
            },
        }
    }
}

/// The positions below `n` that `seen` does not hold, ascending.
pub open spec fn orphans(seen: Seq<int>, n: nat) -> Seq<int>
    decreases n,
{
    if n == 0 {
        seq![]
    } else {
        let rest = orphans(seen, (n - 1) as nat);
        if seen.contains(n - 1) {
            rest
        } else {
            rest.push(n - 1)
        }
    }
}

/// The order of the stack as positions into the entries: the chain from
/// the first head, then the entries it did not reach.
pub open spec fn stack_order(es: Seq<EntryView>) -> Option<Seq<int>> {
    match first_head(es, 0) {
        None => None,
        Some(h) => {
            let w = walk(es, Some(h), seq![], es.len() + 1);
            Some(w + orphans(w, es.len()))
        },
    }
}

/// The stack the parameters describe: `None` when they name no layer or
/// every layer has a valid predecessor.
pub open spec fn spec_layer_stack(params: Seq<(Seq<char>, Seq<char>)>) -> Option<Seq<EntryView>> {
    let es = entries_upto(params, 100);
    if es.len() == 0 {
        None
    } else {
        match stack_order(es) {
            None => None,
            Some(order) => Some(order.map_values(|p: int| es[p])),
        }
    }
}

fn key_for(i: u64, suffix: &str) -> (k: String)
    ensures
        k@ == layer_key(i as nat, suffix@),
{
    let mut k = String::new();
    push_str(&mut k, "V7_LAYER");
    push_dec(&mut k, i);
    push_str(&mut k, suffix);
    k
}

fn lookup(params: &[(String, String)], key: &str) -> (r: Option<String>)
    ensures
        match r {
            Some(v) => last_value(params@.map_values(|p: (String, String)| (p.0@, p.1@)), key@) == Some(v@),
            None => last_value(params@.map_values(|p: (String, String)| (p.0@, p.1@)), key@) is None,
        },
{
    let ghost pv = params@.map_values(|p: (String, String)| (p.0@, p.1@));
    let mut i: usize = params.len();
    assert(pv.take(i as int) =~= pv);
    while i > 0
        invariant
            i <= params@.len(),
            pv == params@.map_values(|p: (String, String)| (p.0@, p.1@)),
            last_value(pv, key@) == last_value(pv.take(i as int), key@),
        decreases i,
    {
        let ghost t = pv.take(i as int);
        assert(t.last() == pv[i - 1]);
        assert(t.drop_last() =~= pv.take(i - 1));
        if str_eq(params[i - 1].0.as_str(), key) {
            return Some(owned(params[i - 1].1.as_str()));
        }
        i -= 1;
    }
    None
}

fn parsed(v: &Option<String>, d: i32) -> (r: i32)
    ensures
        r == parsed_or(
            match v {
                Some(s) => Some(s@),
                None => None,
            },
            d,
        ),
{
    match v {
        Some(s) => match parse_i32_str(s.as_str()) {
            Some(n) => n,
            None => d,
        },
        None => d,
    }
}

fn read_entry(params: &[(String, String)], i: u64) -> (r: Option<LayerEntry>)
    requires
        1 <= i <= 100,
    ensures
        match r {
            Some(e) => entry_for(params@.map_values(|p: (String, String)| (p.0@, p.1@)), i as nat) == Some(e@),
            None => entry_for(params@.map_values(|p: (String, String)| (p.0@, p.1@)), i as nat) is None,
        },
{
    let name = match lookup(params, key_for(i, "NAME").as_str()) {
        Some(n) => n,
        None => return None,
    };
    let prev = lookup(params, key_for(i, "PREV").as_str());
    let next = lookup(params, key_for(i, "NEXT").as_str());
    let cop = lookup(params, key_for(i, "COPTHICK").as_str());
    let diel = lookup(params, key_for(i, "DIELTYPE").as_str());
    let color = lookup(params, key_for(i, "COLOR").as_str());
    let copper_enabled = match &cop {
        Some(v) => !str_eq(v.as_str(), "0"),
        None => false,
    };
    let dielectric_material = match diel {
        Some(v) => v,
        None => String::new(),
    };
    Some(
        LayerEntry {
            index: i as i32,
            name,
            previous_index: parsed(&prev, 0),
            next_index: parsed(&next, 0),
            copper_enabled,
            dielectric_material,
            color: parsed(&color, 0),
        },
    )
}

/// The views of a list of entries.
pub open spec fn entries_view(v: Seq<LayerEntry>) -> Seq<EntryView> {
    v.map_values(|e: LayerEntry| e@)
}

fn find_pos(es: &Vec<LayerEntry>, idx: i32) -> (r: Option<usize>)
    ensures
        match r {
            Some(p) => pos_of(entries_view(es@), idx) == Some(p as int),
            None => pos_of(entries_view(es@), idx) is None,
        },
{
    let ghost ev = entries_view(es@);
    let mut i: usize = 0;
    while i < es.len()
        invariant
            i <= es@.len(),
            ev == entries_view(es@),
            pos_of(ev.take(i as int), idx) is None,
        decreases es@.len() - i,
    {
        let ghost t = ev.take(i + 1);
        assert(t.drop_last() =~= ev.take(i as int));
        assert(t.last() == es@[i as int]@);
        if es[i].index == idx {
            proof {
                lemma_pos_of_prefix(ev, i + 1, idx);
            }
            return Some(i);
        }
        i += 1;
    }
    assert(ev.take(es@.len() as int) =~= ev);
    None
}

proof fn lemma_pos_of_prefix(es: Seq<EntryView>, n: int, idx: i32)
    requires
        0 <= n <= es.len(),
        pos_of(es.take(n), idx) is Some,
    ensures
        pos_of(es, idx) == pos_of(es.take(n), idx),
    decreases es.len() - n,
{
    if n < es.len() {
        assert(es.take(n + 1).drop_last() =~= es.take(n));
        lemma_pos_of_prefix(es, n + 1, idx);
    } else {
        assert(es.take(n) =~= es);
    }
}

proof fn lemma_pos_of_bounds(es: Seq<EntryView>, idx: i32)
    ensures
        pos_of(es, idx) matches Some(p) ==> 0 <= p < es.len() && es[p].index == idx,
    decreases es.len(),
{
    if es.len() > 0 {
        lemma_pos_of_bounds(es.drop_last(), idx);
    }
}


fn copy_entry(e: &LayerEntry) -> (r: LayerEntry)
    ensures
        r@ == e@,
{
    LayerEntry {
        index: e.index,
        name: owned(e.name.as_str()),
        previous_index: e.previous_index,
        next_index: e.next_index,
        copper_enabled: e.copper_enabled,
        dielectric_material: owned(e.dielectric_material.as_str()),
        color: e.color,
    }
}

/// The views of a list of parameter pairs.
pub open spec fn params_view(p: Seq<(String, String)>) -> Seq<(Seq<char>, Seq<char>)> {
    p.map_values(|q: (String, String)| (q.0@, q.1@))
}

fn read_entries(parameters: &[(String, String)]) -> (es: Vec<LayerEntry>)
    ensures
        entries_view(es@) == entries_upto(params_view(parameters@), 100),
{
    let ghost pv = params_view(parameters@);
    let mut es: Vec<LayerEntry> = Vec::new();
    let mut i: u64 = 1;
    while i <= 100
        invariant
            1 <= i <= 101,
            pv == params_view(parameters@),
            entries_view(es@) == entries_upto(pv, (i - 1) as nat),
        decreases 101 - i,
    {
        let ghost before = entries_view(es@);
        if let Some(e) = read_entry(parameters, i) {
            es.push(e);
            assert(entries_view(es@) =~= before.push(e@));
        }
        i += 1;
    }
    es
}

fn find_head(es: &Vec<LayerEntry>) -> (r: Option<usize>)
    ensures
        match r {
            Some(h) => first_head(entries_view(es@), 0) == Some(h as int),
            None => first_head(entries_view(es@), 0) is None,
        },
{
    let ghost ev = entries_view(es@);
    let mut j: usize = 0;
    while j < es.len()
        invariant
            j <= es@.len(),
            ev == entries_view(es@),
            first_head(ev, 0) == first_head(ev, j as int),
        decreases es@.len() - j,
    {
        assert(ev[j as int] == es@[j as int]@);
        let prev = es[j].previous_index;
        if prev == 0 {
            return Some(j);
        }
        if find_pos(es, prev).is_none() {
            return Some(j);
        }
        j += 1;
    }
    None
}

impl LayerStack {
    /// Builds the stack from the board parameters (later duplicates of a
    /// key win): `None` when no layer among 1 to 100 is named, or when
    /// every named layer has a valid predecessor.
    pub fn from_board_parameters(parameters: &[(String, String)]) -> (r: Option<LayerStack>)
        ensures
            match spec_layer_stack(params_view(parameters@)) {
                None => r is None,
                Some(ls) => r matches Some(s) && entries_view(s.layers@) == ls,
            },
    {
        let es = read_entries(parameters);
        let ghost ev = entries_view(es@);
        proof {
            lemma_entries_len(params_view(parameters@), 100);
        }
        let n = es.len();
        if n == 0 {
            return None;
        }
        let h = match find_head(&es) {
            Some(h) => h,
            None => return None,
        };
        proof {
            lemma_first_head_bounds(ev, 0);
        }
        let mut seen: Vec<bool> = Vec::new();
        let mut k: usize = 0;
        while k < n
            invariant
                k <= n,
                seen@.len() == k,
                forall|q: int| 0 <= q < k ==> !seen@[q],
            decreases n - k,
        {
            seen.push(false);
            k += 1;
        }
        let mut order: Vec<usize> = Vec::new();
        let mut cur: Option<usize> = Some(h);
        let mut fuel: usize = n + 1;
        let ghost target = walk(ev, Some(h as int), seq![], (n + 1) as nat);
        assert(order@.map_values(|p: usize| p as int) =~= Seq::<int>::empty());
        while fuel > 0
            invariant_except_break
                fuel <= n + 1,
            invariant
                n == es@.len(),
                ev == entries_view(es@),
                seen@.len() == n,
                forall|q: int| 0 <= q < n ==> (seen@[q] <==> order@.map_values(|p: usize| p as int).contains(q)),
                forall|q: int| 0 <= q < order@.len() ==> order@[q] < n,
                cur matches Some(c) ==> c < n,
                target == walk(ev, match cur {
                    Some(c) => Some(c as int),
                    None => None,
                }, order@.map_values(|p: usize| p as int), fuel as nat),
            ensures
                target == order@.map_values(|p: usize| p as int),
            decreases fuel,
        {
            let p = match cur {
                Some(p) => p,
                None => break,
            };
            let ghost ov = order@.map_values(|p: usize| p as int);
            if seen[p] {
                break;
            }
            let ghost seen0 = seen@;
            seen.set(p, true);
            order.push(p);
            assert(order@.map_values(|p: usize| p as int) =~= ov.push(p as int));
            assert forall|q: int| 0 <= q < n implies (seen@[q] <==> order@.map_values(|p: usize| p as int).contains(q)) by {
                if q == p as int {
                    assert(ov.push(p as int)[ov.len() as int] == q);
                } else {
                    assert(seen@[q] == seen0[q]);
                    if ov.contains(q) {
                        let k = choose|k: int| 0 <= k < ov.len() && ov[k] == q;
                        assert(ov.push(p as int)[k] == q);
                    }
                    if ov.push(p as int).contains(q) {
                        let k = choose|k: int| 0 <= k < ov.len() + 1 && ov.push(p as int)[k] == q;
                        assert(k < ov.len());
                        assert(ov[k] == q);
                    }
                }
            }
            let nx = find_pos(&es, es[p].next_index);
            proof {
                lemma_pos_of_bounds(ev, es@[p as int].next_index);
                assert(ev[p as int] == es@[p as int]@);
            }
            cur = nx;
            fuel -= 1;
        }
        proof {
            if fuel == 0 {
            }
        }
        let ghost w = order@.map_values(|p: usize| p as int);
        let mut full = order;
        assert(w + orphans(w, 0) =~= w);
        let mut q: usize = 0;
        while q < n
            invariant
                q <= n,
                n == es@.len(),
                seen@.len() == n,
                forall|x: int| 0 <= x < n ==> (seen@[x] <==> w.contains(x)),
                full@.map_values(|p: usize| p as int) == w + orphans(w, q as nat),
                forall|x: int| 0 <= x < full@.len() ==> full@[x] < n,
            decreases n - q,
        {
            let ghost before = full@.map_values(|p: usize| p as int);
            if !seen[q] {
                full.push(q);
                assert(full@.map_values(|p: usize| p as int) =~= before.push(q as int));
            }
            q += 1;
        }
        let mut layers: Vec<LayerEntry> = Vec::new();
        let ghost fv = full@.map_values(|p: usize| p as int);
        let mut t: usize = 0;
        while t < full.len()
            invariant
                t <= full@.len(),
                layers@.len() == t,
                n == es@.len(),
                ev == entries_view(es@),
                fv == full@.map_values(|p: usize| p as int),
                forall|x: int| 0 <= x < full@.len() ==> full@[x] < n,
                entries_view(layers@) == fv.take(t as int).map_values(|p: int| ev[p]),
            decreases full@.len() - t,
        {
            let e = copy_entry(&es[full[t]]);
            let ghost l0 = layers@;
            layers.push(e);
            proof {
                assert(ev[full@[t as int] as int] == es@[full@[t as int] as int]@);
                assert forall|k: int| 0 <= k < t + 1 implies #[trigger] entries_view(layers@)[k] == fv.take(t + 1).map_values(|p: int| ev[p])[k] by {
                    if k < t {
                        assert(layers@[k] == l0[k]);
                        assert(entries_view(l0)[k] == fv.take(t as int).map_values(|p: int| ev[p])[k]);
                    }
                }
            }
            t += 1;
            assert(entries_view(layers@) =~= fv.take(t as int).map_values(|p: int| ev[p]));
        }
        assert(fv.take(full@.len() as int) =~= fv);
        Some(LayerStack { layers })
    }
}

proof fn lemma_entries_len(params: Seq<(Seq<char>, Seq<char>)>, n: nat)
    ensures
        entries_upto(params, n).len() <= n,
    decreases n,
{
    if n > 0 {
        lemma_entries_len(params, (n - 1) as nat);
    }
}

proof fn lemma_first_head_bounds(es: Seq<EntryView>, from: int)
    ensures
        first_head(es, from) matches Some(h) ==> 0 <= h < es.len(),
    decreases es.len() - from,
{
    if !(from < 0 || from >= es.len()) && !(es[from].previous_index == 0 || pos_of(es, es[from].previous_index) is None) {
        lemma_first_head_bounds(es, from + 1);
    }
}


/// No position occurs twice.
pub open spec fn distinct(s: Seq<int>) -> bool {
    forall|a: int, b: int| 0 <= a < b < s.len() ==> s[a] != s[b]
}

proof fn lemma_walk_distinct(es: Seq<EntryView>, cur: Option<int>, seen: Seq<int>, fuel: nat)
    requires
        distinct(seen),
        forall|k: int| 0 <= k < seen.len() ==> 0 <= #[trigger] seen[k] < es.len(),
    ensures
        distinct(walk(es, cur, seen, fuel)),
        forall|k: int| 0 <= k < walk(es, cur, seen, fuel).len() ==> 0 <= #[trigger] walk(es, cur, seen, fuel)[k] < es.len(),
    decreases fuel,
{
    if fuel > 0 {
        if let Some(p) = cur {
            if !(seen.contains(p) || p < 0 || p >= es.len()) {
                let s2 = seen.push(p);
                assert forall|a: int, b: int| 0 <= a < b < s2.len() implies s2[a] != s2[b] by {
                    if b == seen.len() {
                        assert(s2[a] == seen[a]);
                        if seen[a] == p {
                            assert(seen.contains(p));
                        }
                    }
                }
                lemma_walk_distinct(es, pos_of(es, es[p].next_index), s2, (fuel - 1) as nat);
            }
        }
    }
}

proof fn lemma_orphans(seen: Seq<int>, n: nat)
    ensures
        distinct(orphans(seen, n)),
        forall|k: int| 0 <= k < orphans(seen, n).len() ==> 0 <= #[trigger] orphans(seen, n)[k] < n && !seen.contains(orphans(seen, n)[k]),
        forall|p: int| 0 <= p < n && !seen.contains(p) ==> orphans(seen, n).contains(p),
    decreases n,
{
    if n > 0 {
        lemma_orphans(seen, (n - 1) as nat);
        let rest = orphans(seen, (n - 1) as nat);
        if !seen.contains(n - 1) {
            let o = rest.push(n - 1);
            assert forall|p: int| 0 <= p < n && !seen.contains(p) implies o.contains(p) by {
                if p == n - 1 {
                    assert(o[rest.len() as int] == p);
                } else {
                    let k = choose|k: int| 0 <= k < rest.len() && rest[k] == p;
                    assert(o[k] == p);
                }
            }
        }
    }
}

/// The stack lists every layer the parameters name exactly once: its order
/// holds each position of the named entries, no position twice and nothing
/// else.
pub proof fn lemma_stack_lists_each_layer_once(params: Seq<(Seq<char>, Seq<char>)>)
    requires
        stack_order(entries_upto(params, 100)) is Some,
    ensures
        ({
            let es = entries_upto(params, 100);
            let order = stack_order(es)->0;
            &&& distinct(order)
            &&& forall|k: int| 0 <= k < order.len() ==> 0 <= #[trigger] order[k] < es.len()
            &&& forall|p: int| 0 <= p < es.len() ==> order.contains(p)
        }),
{
    let es = entries_upto(params, 100);
    let h = first_head(es, 0)->0;
    let w = walk(es, Some(h), seq![], es.len() + 1);
    lemma_walk_distinct(es, Some(h), seq![], (es.len() + 1) as nat);
    lemma_orphans(w, es.len());
    let o = orphans(w, es.len());
    let order = w + o;
    assert(stack_order(es)->0 == order);
    assert forall|a: int, b: int| 0 <= a < b < order.len() implies order[a] != order[b] by {
        if b < w.len() {
        } else if a >= w.len() {
            assert(order[a] == o[a - w.len()] && order[b] == o[b - w.len()]);
        } else {
            assert(order[b] == o[b - w.len()]);
            assert(!w.contains(o[b - w.len()]));
            if order[a] == order[b] {
                assert(w[a] == order[b]);
            }
        }
    }
    assert forall|k: int| 0 <= k < order.len() implies 0 <= #[trigger] order[k] < es.len() by {
        if k >= w.len() {
            assert(order[k] == o[k - w.len()]);
        }
    }
    assert forall|p: int| 0 <= p < es.len() implies order.contains(p) by {
        if w.contains(p) {
            let k = choose|k: int| 0 <= k < w.len() && w[k] == p;
            assert(order[k] == p);
        } else {
            let k = choose|k: int| 0 <= k < o.len() && o[k] == p;
            assert(order[w.len() + k] == p);
        }
    }
}

} // verus!
