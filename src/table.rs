use vstd::prelude::*;

verus! {

/// True when some entry of the table carries `key`.
pub open spec fn holds_key<V>(t: Seq<(u64, V)>, key: u64) -> bool {
    exists|j: int| 0 <= j < t.len() && t[j].0 == key
}

/// The slot of the entry that carries `key` (meaningful when `holds_key(t, key)`).
pub open spec fn slot_of<V>(t: Seq<(u64, V)>, key: u64) -> int {
    choose|j: int| 0 <= j < t.len() && t[j].0 == key
}

/// No two entries of the table carry the same key.
pub open spec fn keys_unique<V>(t: Seq<(u64, V)>) -> bool {
    forall|a: int, b: int| 0 <= a < t.len() && 0 <= b < t.len() && a != b ==> t[a].0 != t[b].0
}

/// The key-value map that a table of entries stands for.
pub open spec fn table_map<V>(t: Seq<(u64, V)>) -> Map<u64, V> {
    Map::new(|k: u64| holds_key(t, k), |k: u64| t[slot_of(t, k)].1)
}

pub proof fn lemma_table_lookup<V>(t: Seq<(u64, V)>, j: int)
    requires
        keys_unique(t),
        0 <= j < t.len(),
    ensures
        table_map(t).contains_key(t[j].0),
        table_map(t)[t[j].0] == t[j].1,
        slot_of(t, t[j].0) == j,
{
    let k = t[j].0;
    assert(holds_key(t, k));
    let s = slot_of(t, k);
    assert(t[s].0 == k);
}

pub proof fn lemma_table_push<V>(t: Seq<(u64, V)>, key: u64, value: V)
    requires
        keys_unique(t),
        !holds_key(t, key),
    ensures
        keys_unique(t.push((key, value))),
        table_map(t.push((key, value))) == table_map(t).insert(key, value),
{
    let u = t.push((key, value));
    assert(keys_unique(u)) by {
        assert forall|a: int, b: int| 0 <= a < u.len() && 0 <= b < u.len() && a != b implies u[a].0
            != u[b].0 by {
            if a < t.len() && b < t.len() {
                assert(u[a] == t[a] && u[b] == t[b]);
            } else if a < t.len() {
                assert(u[a] == t[a]);
            } else {
                assert(u[b] == t[b]);
            }
        }
    }
    assert forall|k: u64| #[trigger] holds_key(u, k) == (holds_key(t, k) || k == key) by {
        if holds_key(t, k) {
            let j = choose|j: int| 0 <= j < t.len() && t[j].0 == k;
            assert(u[j] == t[j]);
        }
        if k == key {
            assert(u[t.len() as int].0 == key);
        }
        if holds_key(u, k) && k != key {
            let j = choose|j: int| 0 <= j < u.len() && u[j].0 == k;
            assert(j < t.len());
            assert(t[j] == u[j]);
        }
    }
    assert forall|k: u64| #[trigger] table_map(u).contains_key(k) implies table_map(u)[k] == (if k
        == key {
        value
    } else {
        table_map(t)[k]
    }) by {
        if k == key {
            lemma_table_lookup(u, t.len() as int);
        } else {
            let j = choose|j: int| 0 <= j < u.len() && u[j].0 == k;
            assert(j < t.len());
            assert(t[j] == u[j]);
            lemma_table_lookup(u, j);
            lemma_table_lookup(t, j);
        }
    }
    assert(table_map(u) =~= table_map(t).insert(key, value));
}

pub proof fn lemma_table_update<V>(t: Seq<(u64, V)>, j: int, value: V)
    requires
        keys_unique(t),
        0 <= j < t.len(),
    ensures
        keys_unique(t.update(j, (t[j].0, value))),
        table_map(t.update(j, (t[j].0, value))) == table_map(t).insert(t[j].0, value),
{
    let key = t[j].0;
    let u = t.update(j, (key, value));
    assert(keys_unique(u)) by {
        assert forall|a: int, b: int| 0 <= a < u.len() && 0 <= b < u.len() && a != b implies u[a].0
            != u[b].0 by {
            assert(u[a].0 == t[a].0 && u[b].0 == t[b].0);
        }
    }
    assert forall|k: u64| #[trigger] holds_key(u, k) == holds_key(t, k) by {
        if holds_key(t, k) {
            let q = choose|q: int| 0 <= q < t.len() && t[q].0 == k;
            assert(u[q].0 == k);
        }
        if holds_key(u, k) {
            let q = choose|q: int| 0 <= q < u.len() && u[q].0 == k;
            assert(t[q].0 == k);
        }
    }
    assert forall|k: u64| #[trigger] table_map(u).contains_key(k) implies table_map(u)[k] == (if k
        == key {
        value
    } else {
        table_map(t)[k]
    }) by {
        let q = choose|q: int| 0 <= q < u.len() && u[q].0 == k;
        lemma_table_lookup(u, q);
        lemma_table_lookup(t, q);
    }
    lemma_table_lookup(t, j);
    assert(table_map(u) =~= table_map(t).insert(key, value));
}

pub proof fn lemma_table_remove<V>(t: Seq<(u64, V)>, j: int)
    requires
        keys_unique(t),
        0 <= j < t.len(),
    ensures
        keys_unique(t.remove(j)),
        table_map(t.remove(j)) == table_map(t).remove(t[j].0),
{
    let key = t[j].0;
    let u = t.remove(j);
    assert(keys_unique(u)) by {
        assert forall|a: int, b: int| 0 <= a < u.len() && 0 <= b < u.len() && a != b implies u[a].0
            != u[b].0 by {
            let a2 = if a < j { a } else { a + 1 };
            let b2 = if b < j { b } else { b + 1 };
            assert(u[a] == t[a2] && u[b] == t[b2]);
        }
    }
    assert forall|k: u64| #[trigger] holds_key(u, k) == (holds_key(t, k) && k != key) by {
        if holds_key(t, k) && k != key {
            let q = choose|q: int| 0 <= q < t.len() && t[q].0 == k;
            let q2 = if q < j { q } else { q - 1 };
            assert(u[q2] == t[q]);
        }
        if holds_key(u, k) {
            let q = choose|q: int| 0 <= q < u.len() && u[q].0 == k;
            let q2 = if q < j { q } else { q + 1 };
            assert(t[q2] == u[q]);
        }
    }
    assert forall|k: u64| #[trigger] table_map(u).contains_key(k) implies table_map(u)[k]
        == table_map(t)[k] by {
        let q = choose|q: int| 0 <= q < u.len() && u[q].0 == k;
        let q2 = if q < j { q } else { q + 1 };
        assert(t[q2] == u[q]);
        lemma_table_lookup(u, q);
        lemma_table_lookup(t, q2);
    }
    assert(table_map(u) =~= table_map(t).remove(key));
}

/// `b` is `a` with every value replaced by what `f` gave for its entry.
pub open spec fn altered<V, F: Fn(&u64, V) -> V>(a: Seq<(u64, V)>, b: Seq<(u64, V)>, f: F) -> bool {
    &&& a.len() == b.len()
    &&& forall|q: int|
        0 <= q < a.len() ==> (#[trigger] b[q]).0 == a[q].0 && f.ensures((&a[q].0, a[q].1), b[q].1)
}

pub proof fn lemma_table_altered<V, F: Fn(&u64, V) -> V>(a: Seq<(u64, V)>, b: Seq<(u64, V)>, f: F)
    requires
        keys_unique(a),
        altered(a, b, f),
    ensures
        keys_unique(b),
        forall|k: u64| #[trigger] holds_key(b, k) == holds_key(a, k),
        forall|k: u64|
            #[trigger] table_map(b).contains_key(k) ==> f.ensures(
                (&k, table_map(a)[k]),
                table_map(b)[k],
            ),
{
    assert forall|x: int, y: int| 0 <= x < b.len() && 0 <= y < b.len() && x != y implies b[x].0
        != b[y].0 by {
        assert(b[x].0 == a[x].0 && b[y].0 == a[y].0);
    }
    assert forall|k: u64| #[trigger] holds_key(b, k) == holds_key(a, k) by {
        if holds_key(a, k) {
            let q = choose|q: int| 0 <= q < a.len() && a[q].0 == k;
            assert(b[q].0 == k);
        }
        if holds_key(b, k) {
            let q = choose|q: int| 0 <= q < b.len() && b[q].0 == k;
            assert(a[q].0 == b[q].0);
        }
    }
    assert forall|k: u64| #[trigger] table_map(b).contains_key(k) implies f.ensures(
        (&k, table_map(a)[k]),
        table_map(b)[k],
    ) by {
        let q = choose|q: int| 0 <= q < b.len() && b[q].0 == k;
        assert(a[q].0 == b[q].0);
        lemma_table_lookup(a, q);
        lemma_table_lookup(b, q);
    }
}

/// Rebuilds a table in linear time, each value replaced by `f(key, value)`,
/// every entry staying in its slot: the entries are first taken out from the
/// back, then put back front to back.
pub fn alter_table<V, F: Fn(&u64, V) -> V>(t: Vec<(u64, V)>, f: &F) -> (r: Vec<(u64, V)>)
    requires
        forall|k: u64, v: V| f.requires((&k, v)),
    ensures
        altered(t@, r@, *f),
{
    let ghost s = t@;
    let mut rest = t;
    let mut rev: Vec<(u64, V)> = Vec::new();
    while rest.len() > 0
        invariant
            rest@ == s.take(rest@.len() as int),
            rev@.len() + rest@.len() == s.len(),
            forall|q: int| 0 <= q < rev@.len() ==> #[trigger] rev@[q] == s[s.len() - 1 - q],
        decreases rest@.len(),
    {
        if let Some(e) = rest.pop() {
            rev.push(e);
        }
    }
    let mut out: Vec<(u64, V)> = Vec::new();
    while rev.len() > 0
        invariant
            forall|k: u64, v: V| f.requires((&k, v)),
            rev@.len() + out@.len() == s.len(),
            forall|q: int| 0 <= q < rev@.len() ==> #[trigger] rev@[q] == s[s.len() - 1 - q],
            forall|q: int|
                0 <= q < out@.len() ==> (#[trigger] out@[q]).0 == s[q].0 && f.ensures(
                    (&s[q].0, s[q].1),
                    out@[q].1,
                ),
        decreases rev@.len(),
    {
        if let Some(e) = rev.pop() {
            let (k, v) = e;
            let nv = f(&k, v);
            out.push((k, nv));
        }
    }
    out
}

/// Finds the slot of `key` in a table whose keys are unique.
pub fn find_slot<V>(t: &Vec<(u64, V)>, key: u64) -> (r: Option<usize>)
    ensures
        match r {
            Some(j) => j < t@.len() && t@[j as int].0 == key,
            None => !holds_key(t@, key),
        },
{
    let mut j: usize = 0;
    while j < t.len()
        invariant
            j <= t@.len(),
            forall|q: int| 0 <= q < j ==> t@[q].0 != key,
        decreases t@.len() - j,
    {
        if t[j].0 == key {
            return Some(j);
        }
        j = j + 1;
    }
    None
}

} // verus!
