//! Reading the addon's saved variables: the Lua value tree of the database
//! global, the choice of its latest death, and the conversion of Lua values
//! to plain JSON-shaped values.
use vstd::prelude::*;
use crate::number::{float_to_i64, float_trunc};
use crate::record::{DeathRecord, Norm};
use crate::text::{decimal, decimal_text, str_eq};

verus! {

/// A Lua value as read from the evaluated file.
#[derive(Debug)]
pub enum LuaVal {
    Nil,
    Bool(bool),
    Int(i64),
    /// A number that is not an integer, as the bits of an IEEE-754 double.
    Num(u64),
    Str(String),
    /// A string that is not valid UTF-8.
    Bytes,
    /// The key/value pairs of a table, in the order Lua walked them.
    Table(Vec<(LuaVal, LuaVal)>),
    /// A function, coroutine or userdata.
    Other,
}

/// `k` is the string key `name`.
pub open spec fn key_is(k: LuaVal, name: Seq<char>) -> bool {
    k matches LuaVal::Str(s) && s@ == name
}

/// `i` is the first pair of `t` whose key is `name`.
pub open spec fn is_field_at(t: Seq<(LuaVal, LuaVal)>, name: Seq<char>, i: int) -> bool {
    0 <= i < t.len() && key_is(t[i].0, name) && forall|j: int| 0 <= j < i ==> !key_is(t[j].0, name)
}

/// The value stored under `name` in the pairs `t`; `Nil` when there is none.
pub open spec fn field_of(t: Seq<(LuaVal, LuaVal)>, name: Seq<char>) -> LuaVal {
    if exists|i: int| is_field_at(t, name, i) {
        t[choose|i: int| is_field_at(t, name, i)].1
    } else {
        LuaVal::Nil
    }
}

/// Index of the pair of `t` whose key is `name`, if any.
pub fn find_field(t: &Vec<(LuaVal, LuaVal)>, name: &str) -> (r: Option<usize>)
    ensures
        match r {
            Some(i) => is_field_at(t@, name@, i as int),
            None => forall|i: int| 0 <= i < t@.len() ==> !key_is(t@[i].0, name@),
        },
        r matches Some(i) ==> field_of(t@, name@) == t@[i as int].1,
        r is None ==> field_of(t@, name@) == LuaVal::Nil,
{
    let mut i: usize = 0;
    while i < t.len()
        invariant
            i <= t@.len(),
            forall|j: int| 0 <= j < i ==> !key_is(t@[j].0, name@),
        decreases t@.len() - i,
    {
        let hit = match &t[i].0 {
            LuaVal::Str(s) => str_eq(s.as_str(), name),
            _ => false,
        };
        if hit {
            proof {
                let k = choose|k: int| is_field_at(t@, name@, k);
                assert(is_field_at(t@, name@, i as int));
                if k < i {
                } else if k > i {
                }
                assert(k == i);
            }
            return Some(i);
        }
        i += 1;
    }
    None
}

/// Pair `e` of the `deaths` table is a death entry: a positive integer key
/// and a table value.
pub open spec fn is_entry(e: (LuaVal, LuaVal)) -> bool {
    &&& e.0 matches LuaVal::Int(k)
    &&& k > 0
    &&& e.1 is Table
}

/// The integer key of a pair, 0 for any other key.
pub open spec fn int_key(k: LuaVal) -> int {
    match k {
        LuaVal::Int(i) => i as int,
        _ => 0,
    }
}

/// Pair `j` is the latest death entry: no entry has a greater key, and every
/// entry walked before it has a smaller one.
pub open spec fn is_latest(t: Seq<(LuaVal, LuaVal)>, j: int) -> bool {
    &&& 0 <= j < t.len()
    &&& is_entry(t[j])
    &&& forall|i: int| 0 <= i < t.len() && is_entry(t[i]) ==> int_key(t[i].0) <= int_key(t[j].0)
    &&& forall|i: int| 0 <= i < j && is_entry(t[i]) ==> int_key(t[i].0) < int_key(t[j].0)
}

/// Index of the death entry with the greatest key in the `deaths` pairs,
/// whatever order they were walked in.
pub fn latest_entry(deaths: &Vec<(LuaVal, LuaVal)>) -> (r: Option<usize>)
    ensures
        match r {
            Some(j) => is_latest(deaths@, j as int),
            None => forall|i: int| 0 <= i < deaths@.len() ==> !is_entry(deaths@[i]),
        },
{
    let mut max_i: i64 = 0;
    let mut latest: Option<usize> = None;
    let mut i: usize = 0;
    while i < deaths.len()
        invariant
            i <= deaths@.len(),
            match latest {
                Some(j) => {
                    &&& j < i
                    &&& is_entry(deaths@[j as int])
                    &&& max_i == int_key(deaths@[j as int].0)
                    &&& forall|k: int|
                        0 <= k < i && is_entry(deaths@[k]) ==> int_key(deaths@[k].0) <= max_i
                    &&& forall|k: int|
                        0 <= k < j && is_entry(deaths@[k]) ==> int_key(deaths@[k].0) < max_i
                },
                None => max_i == 0 && forall|k: int| 0 <= k < i ==> !is_entry(deaths@[k]),
            },
        decreases deaths@.len() - i,
    {
        match (&deaths[i].0, &deaths[i].1) {
            (LuaVal::Int(k), LuaVal::Table(_)) => {
                if *k > max_i {
                    max_i = *k;
                    latest = Some(i);
                }
            },
            _ => {},
        }
        i += 1;
    }
    latest
}

/// The integer a Lua number stands for: itself, or a non-integral number
/// truncated toward zero (saturating; not-a-number gives 0).
pub open spec fn integer_of(v: LuaVal) -> Option<i64> {
    match v {
        LuaVal::Int(i) => Some(i),
        LuaVal::Num(bits) => Some(float_trunc(bits)),
        _ => None,
    }
}

/// Reads a Lua number as an integer.
pub fn as_integer(v: &LuaVal) -> (r: Option<i64>)
    ensures
        r == integer_of(*v),
{
    match v {
        LuaVal::Int(i) => Some(*i),
        LuaVal::Num(bits) => Some(float_to_i64(*bits)),
        _ => None,
    }
}

/// The text of a valid UTF-8 Lua string.
pub open spec fn text_of(v: LuaVal) -> Option<Seq<char>> {
    match v {
        LuaVal::Str(s) => Some(s@),
        _ => None,
    }
}

/// Reads a Lua string as text.
pub fn as_text(v: &LuaVal) -> (r: Option<String>)
    ensures
        r matches Some(s) ==> text_of(*v) == Some(s@),
        r is None ==> text_of(*v) is None,
{
    match v {
        LuaVal::Str(s) => Some(s.clone()),
        _ => None,
    }
}

/// The member name a table key becomes in an object.
pub open spec fn key_text(k: LuaVal) -> Seq<char> {
    match k {
        LuaVal::Str(s) => s@,
        LuaVal::Bytes => Seq::empty(),
        LuaVal::Int(i) => decimal(i as int),
        _ => seq!['k', 'e', 'y'],
    }
}

fn key_text_of(k: &LuaVal) -> (r: String)
    ensures
        r@ == key_text(*k),
{
    match k {
        LuaVal::Str(s) => s.clone(),
        LuaVal::Bytes => String::new(),
        LuaVal::Int(i) => decimal_text(*i),
        _ => {
            let r = "key".to_owned();
            proof {
                reveal_strlit("key");
            }
            r
        },
    }
}

/// Every key of the non-empty pairs `t` is an integer: the table is a list.
pub open spec fn is_list(t: Seq<(LuaVal, LuaVal)>) -> bool {
    t.len() > 0 && forall|i: int| 0 <= i < t.len() ==> t[i].0 is Int
}

/// Pair `a` comes before pair `b` of `t`: a smaller key, or an equal key and
/// walked earlier.
pub open spec fn goes_before(t: Seq<(LuaVal, LuaVal)>, a: int, b: int) -> bool {
    int_key(t[a].0) < int_key(t[b].0) || (int_key(t[a].0) == int_key(t[b].0) && a < b)
}

/// `o` lists the pairs of `t` by key, each once, equal keys in walk order.
pub open spec fn is_key_order(t: Seq<(LuaVal, LuaVal)>, o: Seq<usize>) -> bool {
    &&& o.len() == t.len()
    &&& forall|i: int| 0 <= i < o.len() ==> #[trigger] o[i] < t.len()
    &&& forall|i: int, j: int| 0 <= i < j < o.len() ==> goes_before(t, o[i] as int, o[j] as int)
}

/// `m[x]` has key `name`, and the value of the last pair of `t` with that
/// member name is `t[i]`.
pub open spec fn is_last_with(t: Seq<(LuaVal, LuaVal)>, name: Seq<char>, i: int) -> bool {
    0 <= i < t.len() && key_text(t[i].0) == name && forall|j: int|
        i < j < t.len() ==> key_text(t[j].0) != name
}

/// Some pair of `t` has member name `name`.
pub open spec fn has_last(t: Seq<(LuaVal, LuaVal)>, name: Seq<char>) -> bool {
    exists|i: int| is_last_with(t, name, i)
}

/// No two members of `m` share a name.
pub open spec fn names_distinct(m: Seq<(String, Norm)>) -> bool {
    forall|x: int, y: int| 0 <= x < y < m.len() ==> m[x].0@ != m[y].0@
}

/// Some member of `m` is named `name`.
pub open spec fn has_member(m: Seq<(String, Norm)>, name: Seq<char>) -> bool {
    exists|x: int| 0 <= x < m.len() && m[x].0@ == name
}

/// The last pair of `t` whose member name is `name`.
pub open spec fn last_index(t: Seq<(LuaVal, LuaVal)>, name: Seq<char>) -> int {
    choose|i: int| is_last_with(t, name, i)
}

/// `n` is the conversion of the Lua value `v`: scalars as they are, a
/// non-empty table with integer keys only as an array ordered by key, any
/// other table as an object whose members take the value of the last pair
/// with their name.
pub open spec fn normalizes_to(v: LuaVal, n: Norm) -> bool
    decreases v,
{
    match v {
        LuaVal::Nil => n is Null,
        LuaVal::Bool(b) => n == Norm::Bool(b),
        LuaVal::Int(i) => n == Norm::Int(i),
        LuaVal::Num(bits) => n == Norm::Float(bits),
        LuaVal::Str(s) => n matches Norm::Str(x) && x@ == s@,
        LuaVal::Bytes => n matches Norm::Str(x) && x@.len() == 0,
        LuaVal::Other => n is Null,
        LuaVal::Table(t) => if is_list(t@) {
            n matches Norm::Array(a) && a@.len() == t@.len() && exists|o: Seq<usize>|
                is_key_order(t@, o) && forall|j: int|
                    0 <= j < a@.len() ==> normalizes_to(t@[o[j] as int].1, #[trigger] a@[j])
        } else {
            n matches Norm::Object(m) && {
                &&& names_distinct(m@)
                &&& forall|i: int|
                    #![trigger t@[i]]
                    0 <= i < t@.len() ==> has_member(m@, key_text(t@[i].0))
                &&& forall|x: int|
                    #![trigger m@[x]]
                    0 <= x < m@.len() ==> has_last(t@, m@[x].0@) && normalizes_to(
                        t@[last_index(t@, m@[x].0@)].1,
                        m@[x].1,
                    )
            }
        },
    }
}

fn int_key_of(k: &LuaVal) -> (r: i64)
    ensures
        r == int_key(*k),
{
    match k {
        LuaVal::Int(i) => *i,
        _ => 0,
    }
}

/// The indices of the pairs of `t` sorted by key, equal keys in walk order.
fn key_order(t: &Vec<(LuaVal, LuaVal)>) -> (o: Vec<usize>)
    ensures
        is_key_order(t@, o@),
{
    let mut o: Vec<usize> = Vec::new();
    let mut i: usize = 0;
    while i < t.len()
        invariant
            i <= t@.len(),
            o@.len() == i,
            forall|q: int| 0 <= q < o@.len() ==> #[trigger] o@[q] < i,
            forall|a: int, b: int| 0 <= a < b < o@.len() ==> goes_before(t@, o@[a] as int, o@[b] as int),
        decreases t@.len() - i,
    {
        let ki = int_key_of(&t[i].0);
        let mut p: usize = 0;
        loop
            invariant
                p <= o@.len(),
                i < t@.len(),
                o@.len() == i,
                forall|q: int| 0 <= q < o@.len() ==> #[trigger] o@[q] < i,
                ki == int_key(t@[i as int].0),
                forall|q: int| 0 <= q < p ==> int_key(t@[o@[q] as int].0) <= ki,
            ensures
                p <= o@.len(),
                forall|q: int| 0 <= q < p ==> int_key(t@[o@[q] as int].0) <= ki,
                p == o@.len() || int_key(t@[o@[p as int] as int].0) > ki,
            decreases o@.len() - p,
        {
            if p == o.len() {
                break;
            }
            if int_key_of(&t[o[p]].0) > ki {
                break;
            }
            p += 1;
        }
        let ghost old_o = o@;
        o.insert(p, i);
        proof {
            assert forall|a: int, b: int| 0 <= a < b < o@.len() implies goes_before(
                t@,
                o@[a] as int,
                o@[b] as int,
            ) by {
                if b < p {
                    assert(o@[a] == old_o[a] && o@[b] == old_o[b]);
                } else if b == p {
                    assert(o@[a] == old_o[a]);
                } else if a == p {
                    assert(o@[b] == old_o[b - 1]);
                    assert(int_key(t@[old_o[p as int] as int].0) > ki);
                    if b - 1 > p {
                        assert(goes_before(t@, old_o[p as int] as int, old_o[b - 1] as int));
                    }
                } else if a < p {
                    assert(o@[a] == old_o[a] && o@[b] == old_o[b - 1]);
                } else {
                    assert(o@[a] == old_o[a - 1] && o@[b] == old_o[b - 1]);
                }
            }
            assert forall|q: int| 0 <= q < o@.len() implies #[trigger] o@[q] < i + 1 by {
                if q < p {
                    assert(o@[q] == old_o[q]);
                } else if q > p {
                    assert(o@[q] == old_o[q - 1]);
                }
            }
        }
        i += 1;
    }
    o
}

fn find_member(m: &Vec<(String, Norm)>, name: &str) -> (r: Option<usize>)
    ensures
        match r {
            Some(x) => x < m@.len() && m@[x as int].0@ == name@,
            None => forall|x: int| 0 <= x < m@.len() ==> m@[x].0@ != name@,
        },
{
    let mut x: usize = 0;
    while x < m.len()
        invariant
            x <= m@.len(),
            forall|y: int| 0 <= y < x ==> m@[y].0@ != name@,
        decreases m@.len() - x,
    {
        if str_eq(m[x].0.as_str(), name) {
            return Some(x);
        }
        x += 1;
    }
    None
}

fn all_int_keys(t: &Vec<(LuaVal, LuaVal)>) -> (r: bool)
    ensures
        r == is_list(t@),
{
    if t.len() == 0 {
        return false;
    }
    let mut i: usize = 0;
    while i < t.len()
        invariant
            i <= t@.len(),
            forall|j: int| 0 <= j < i ==> t@[j].0 is Int,
        decreases t@.len() - i,
    {
        match &t[i].0 {
            LuaVal::Int(_) => {},
            _ => {
                return false;
            },
        }
        i += 1;
    }
    true
}

/// `val` converts the last pair named `name` among the first `i` of `t`.
pub open spec fn member_from(t: Seq<(LuaVal, LuaVal)>, name: Seq<char>, val: Norm, i: int) -> bool {
    exists|e: int| is_last_upto(t, name, e, i) && normalizes_to(t[e].1, val)
}

/// `e` is the last pair among the first `i` of `t` with member name `name`.
pub open spec fn is_last_upto(t: Seq<(LuaVal, LuaVal)>, name: Seq<char>, e: int, i: int) -> bool {
    0 <= e < i && key_text(t[e].0) == name && forall|j: int|
        e < j < i ==> key_text(t[j].0) != name
}

/// Converts a Lua value to a JSON-shaped value.
pub fn normalize(v: &LuaVal) -> (n: Norm)
    ensures
        normalizes_to(*v, n),
    decreases v,
{
    match v {
        LuaVal::Nil => Norm::Null,
        LuaVal::Bool(b) => Norm::Bool(*b),
        LuaVal::Int(i) => Norm::Int(*i),
        LuaVal::Num(bits) => Norm::Float(*bits),
        LuaVal::Str(s) => Norm::Str(s.clone()),
        LuaVal::Bytes => Norm::Str(String::new()),
        LuaVal::Other => Norm::Null,
        LuaVal::Table(t) => {
            if all_int_keys(t) {
                let o = key_order(t);
                let mut a: Vec<Norm> = Vec::new();
                let mut j: usize = 0;
                while j < o.len()
                    invariant
                        *v == LuaVal::Table(*t),
                        j <= o@.len(),
                        is_key_order(t@, o@),
                        a@.len() == j,
                        forall|q: int| 0 <= q < j ==> normalizes_to(t@[o@[q] as int].1, #[trigger] a@[q]),
                    decreases o@.len() - j,
                {
                    let idx = o[j];
                    proof {
                        assert(o@[j as int] < t@.len());
                        vstd::std_specs::vec::axiom_vec_index_decreases(*t, idx as int);
                        assert(decreases_to!(*v => (*v)->Table_0));
                        assert(decreases_to!(t[idx as int] => t[idx as int].1));
                    }
                    let x = normalize(&t[idx].1);
                    a.push(x);
                    j += 1;
                }
                proof {
                    assert(is_key_order(t@, o@) && forall|q: int|
                        0 <= q < a@.len() ==> normalizes_to(t@[o@[q] as int].1, #[trigger] a@[q]));
                }
                Norm::Array(a)
            } else {
                let mut m: Vec<(String, Norm)> = Vec::new();
                let mut i: usize = 0;
                while i < t.len()
                    invariant
                        *v == LuaVal::Table(*t),
                        i <= t@.len(),
                        names_distinct(m@),
                        forall|e: int| 0 <= e < i ==> has_member(m@, key_text(#[trigger] t@[e].0)),
                        forall|x: int|
                            0 <= x < m@.len() ==> member_from(t@, m@[x].0@, #[trigger] m@[x].1, i as int),
                    decreases t@.len() - i,
                {
                    let k = key_text_of(&t[i].0);
                    proof {
                        vstd::std_specs::vec::axiom_vec_index_decreases(*t, i as int);
                        assert(decreases_to!(*v => (*v)->Table_0));
                        assert(decreases_to!(t[i as int] => t[i as int].1));
                    }
                    let x = normalize(&t[i].1);
                    let ghost old_m = m@;
                    let ghost kv = k@;
                    proof {
                        assert(member_from(t@, kv, x, i + 1)) by {
                            assert(is_last_upto(t@, kv, i as int, i + 1));
                        }
                        assert forall|y: int|
                            0 <= y < old_m.len() && old_m[y].0@ != kv implies member_from(
                            t@,
                            old_m[y].0@,
                            old_m[y].1,
                            i + 1,
                        ) by {
                            assert(member_from(t@, old_m[y].0@, old_m[y].1, i as int));
                            let e = choose|e: int|
                                is_last_upto(t@, old_m[y].0@, e, i as int) && normalizes_to(
                                    t@[e].1,
                                    old_m[y].1,
                                );
                            assert(is_last_upto(t@, old_m[y].0@, e, i + 1));
                        }
                    }
                    match find_member(&m, k.as_str()) {
                        Some(p) => {
                            m.set(p, (k, x));
                            proof {
                                assert forall|y: int|
                                    0 <= y < m@.len() implies member_from(
                                    t@,
                                    m@[y].0@,
                                    #[trigger] m@[y].1,
                                    i + 1,
                                ) by {
                                    if y != p {
                                        assert(m@[y] == old_m[y]);
                                        assert(old_m[y].0@ != old_m[p as int].0@);
                                    }
                                }
                                assert forall|e: int| 0 <= e < i + 1 implies has_member(
                                    m@,
                                    key_text(#[trigger] t@[e].0),
                                ) by {
                                    if e == i {
                                        assert(m@[p as int].0@ == key_text(t@[e].0));
                                    } else {
                                        assert(has_member(old_m, key_text(t@[e].0)));
                                        let y = choose|y: int|
                                            0 <= y < old_m.len() && old_m[y].0@ == key_text(t@[e].0);
                                        assert(m@[y].0@ == old_m[y].0@);
                                    }
                                }
                            }
                        },
                        None => {
                            m.push((k, x));
                            proof {
                                assert forall|y: int|
                                    0 <= y < m@.len() implies member_from(
                                    t@,
                                    m@[y].0@,
                                    #[trigger] m@[y].1,
                                    i + 1,
                                ) by {
                                    if y < old_m.len() {
                                        assert(m@[y] == old_m[y]);
                                    }
                                }
                                assert forall|e: int| 0 <= e < i + 1 implies has_member(
                                    m@,
                                    key_text(#[trigger] t@[e].0),
                                ) by {
                                    if e == i {
                                        assert(m@[old_m.len() as int].0@ == key_text(t@[e].0));
                                    } else {
                                        assert(has_member(old_m, key_text(t@[e].0)));
                                        let y = choose|y: int|
                                            0 <= y < old_m.len() && old_m[y].0@ == key_text(t@[e].0);
                                        assert(m@[y] == old_m[y]);
                                    }
                                }
                            }
                        },
                    }
                    i += 1;
                }
                proof {
                    let tt = (*v)->Table_0;
                    assert(tt@ == t@);
                    assert forall|i: int| #![trigger tt@[i]] 0 <= i < tt@.len() implies has_member(
                        m@,
                        key_text(tt@[i].0),
                    ) by {
                        assert(tt@[i] == t@[i]);
                        assert(has_member(m@, key_text(t@[i].0)));
                    }
                    assert forall|x: int| #![trigger m@[x]] 0 <= x < m@.len() implies has_last(
                        tt@,
                        m@[x].0@,
                    ) && normalizes_to(
                        tt@[last_index(tt@, m@[x].0@)].1,
                        m@[x].1,
                    ) by {
                        assert(member_from(t@, m@[x].0@, m@[x].1, t@.len() as int));
                        let e = choose|e: int|
                            is_last_upto(t@, m@[x].0@, e, t@.len() as int) && normalizes_to(
                                t@[e].1,
                                m@[x].1,
                            );
                        assert(is_last_with(tt@, m@[x].0@, e));
                        let l = last_index(tt@, m@[x].0@);
                        assert(is_last_with(tt@, m@[x].0@, l));
                        if l < e {
                        } else if l > e {
                        }
                        assert(l == e);
                    }
                    assert(normalizes_to(*v, Norm::Object(m)));
                }
                Norm::Object(m)
            }
        },
    }
}

/// The number under `name` in `e`, read as an integer.
fn field_integer(e: &Vec<(LuaVal, LuaVal)>, name: &str) -> (r: Option<i64>)
    ensures
        r == integer_of(field_of(e@, name@)),
{
    match find_field(e, name) {
        Some(i) => as_integer(&e[i].1),
        None => None,
    }
}

/// The text under `name` in `e`.
fn field_text(e: &Vec<(LuaVal, LuaVal)>, name: &str) -> (r: Option<String>)
    ensures
        r matches Some(s) ==> text_of(field_of(e@, name@)) == Some(s@),
        r is None ==> text_of(field_of(e@, name@)) is None,
{
    match find_field(e, name) {
        Some(i) => as_text(&e[i].1),
        None => None,
    }
}

/// The value under `name` in `e`, converted; `Null` when absent.
fn field_norm(e: &Vec<(LuaVal, LuaVal)>, name: &str) -> (r: Norm)
    ensures
        normalizes_to(field_of(e@, name@), r),
{
    match find_field(e, name) {
        Some(i) => normalize(&e[i].1),
        None => Norm::Null,
    }
}

/// `s`, or the empty text.
pub open spec fn text_or_empty(s: Option<Seq<char>>) -> Seq<char> {
    match s {
        Some(t) => t,
        None => Seq::empty(),
    }
}

/// `o` holds text `t` exactly when `s` is `Some(t)`.
pub open spec fn same_text(o: Option<String>, s: Option<Seq<char>>) -> bool {
    match (o, s) {
        (Some(a), Some(b)) => a@ == b,
        (None, None) => true,
        _ => false,
    }
}

/// `n` is the `instance` object built from the entry `e`.
pub open spec fn instance_of(e: Seq<(LuaVal, LuaVal)>, n: Norm) -> bool {
    n matches Norm::Object(m) && {
        &&& m@.len() == 4
        &&& m@[0].0@ == "instanceID"@ && normalizes_to(field_of(e, "instanceID"@), m@[0].1)
        &&& m@[1].0@ == "instanceName"@ && normalizes_to(field_of(e, "instanceName"@), m@[1].1)
        &&& m@[2].0@ == "instanceDifficulty"@ && normalizes_to(
            field_of(e, "instanceDifficulty"@),
            m@[2].1,
        )
        &&& m@[3].0@ == "mapDifficultyID"@ && normalizes_to(
            field_of(e, "mapDifficultyID"@),
            m@[3].1,
        )
    }
}

/// `r` is the record the death entry `e` describes: `at` read as an integer
/// (0 when absent), player and realm as text (empty when absent), the known
/// optional fields read by their type, and the free-form fields converted.
pub open spec fn describes(e: Seq<(LuaVal, LuaVal)>, r: DeathRecord) -> bool {
    &&& r.at == match integer_of(field_of(e, "at"@)) {
        Some(i) => i,
        None => 0,
    }
    &&& r.player@ == text_or_empty(text_of(field_of(e, "player"@)))
    &&& r.realm@ == text_or_empty(text_of(field_of(e, "realm"@)))
    &&& same_text(r.class, text_of(field_of(e, "class"@)))
    &&& r.level == integer_of(field_of(e, "level"@))
    &&& normalizes_to(field_of(e, "location"@), r.location)
    &&& normalizes_to(field_of(e, "killer"@), r.killer)
    &&& normalizes_to(field_of(e, "bags"@), r.bags)
    &&& normalizes_to(field_of(e, "equipped"@), r.equipped)
    &&& instance_of(e, r.instance)
    &&& r.money_copper == integer_of(field_of(e, "moneyCopper"@))
    &&& r.money_gold == integer_of(field_of(e, "moneyGold"@))
    &&& r.money_silver == integer_of(field_of(e, "moneySilver"@))
    &&& r.money_copper_only == integer_of(field_of(e, "moneyCopperOnly"@))
}

/// Builds the record that the death entry `e` describes.
pub fn death_from_entry(e: &Vec<(LuaVal, LuaVal)>) -> (r: DeathRecord)
    ensures
        describes(e@, r),
{
    let at = match field_integer(e, "at") {
        Some(i) => i,
        None => 0,
    };
    let player = match field_text(e, "player") {
        Some(s) => s,
        None => String::new(),
    };
    let realm = match field_text(e, "realm") {
        Some(s) => s,
        None => String::new(),
    };
    let mut instance: Vec<(String, Norm)> = Vec::new();
    instance.push(("instanceID".to_owned(), field_norm(e, "instanceID")));
    instance.push(("instanceName".to_owned(), field_norm(e, "instanceName")));
    instance.push(("instanceDifficulty".to_owned(), field_norm(e, "instanceDifficulty")));
    instance.push(("mapDifficultyID".to_owned(), field_norm(e, "mapDifficultyID")));
    DeathRecord {
        at,
        player,
        realm,
        class: field_text(e, "class"),
        level: field_integer(e, "level"),
        location: field_norm(e, "location"),
        killer: field_norm(e, "killer"),
        bags: field_norm(e, "bags"),
        equipped: field_norm(e, "equipped"),
        instance: Norm::Object(instance),
        money_copper: field_integer(e, "moneyCopper"),
        money_gold: field_integer(e, "moneyGold"),
        money_silver: field_integer(e, "moneySilver"),
        money_copper_only: field_integer(e, "moneyCopperOnly"),
    }
}

/// The death pairs of the database value `db`: its `deaths` member, when
/// `db` is a table and that member is one too.
pub open spec fn deaths_of(db: LuaVal) -> Option<Seq<(LuaVal, LuaVal)>> {
    match db {
        LuaVal::Table(t) => match field_of(t@, "deaths"@) {
            LuaVal::Table(d) => Some(d@),
            _ => None,
        },
        _ => None,
    }
}

/// `r` is the latest death of the database value `db`: none when `db` has no
/// death table or that table no death entry, else the record of the entry
/// with the greatest key.
pub open spec fn latest_of(db: LuaVal, r: Option<DeathRecord>) -> bool {
    match deaths_of(db) {
        None => r is None,
        Some(d) => match r {
            None => forall|i: int| 0 <= i < d.len() ==> !is_entry(d[i]),
            Some(rec) => exists|j: int|
                is_latest(d, j) && describes(d[j].1->Table_0@, rec),
        },
    }
}

/// The latest death recorded in the database value `db`, if any.
pub fn latest_death(db: &LuaVal) -> (r: Option<DeathRecord>)
    ensures
        latest_of(*db, r),
{
    let t = match db {
        LuaVal::Table(t) => t,
        _ => {
            return None;
        },
    };
    let di = match find_field(t, "deaths") {
        Some(i) => i,
        None => {
            return None;
        },
    };
    let deaths = match &t[di].1 {
        LuaVal::Table(d) => d,
        _ => {
            return None;
        },
    };
    match latest_entry(deaths) {
        Some(j) => match &deaths[j].1 {
            LuaVal::Table(e) => {
                let rec = death_from_entry(e);
                proof {
                    assert(is_latest(deaths@, j as int));
                }
                Some(rec)
            },
            _ => None,
        },
        None => None,
    }
}

} // verus!
