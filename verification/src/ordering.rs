use vstd::prelude::*;
use crate::models::PortCandidate;
use crate::serial::{natural_port_key, spec_natural_port_key};
use crate::text::{ascii_lower, ascii_lower_char, chars_of};

verus! {

/// Texts in lexicographic order of their characters (the order of `str`,
/// since UTF-8 keeps the order of code points).
pub open spec fn lex_le(a: Seq<char>, b: Seq<char>) -> bool
    decreases a.len(),
{
    if a.len() == 0 {
        true
    } else if b.len() == 0 {
        false
    } else if a[0] != b[0] {
        (a[0] as int) < (b[0] as int)
    } else {
        lex_le(a.drop_first(), b.drop_first())
    }
}

/// Any two texts are ordered one way or the other.
pub proof fn lemma_lex_total(a: Seq<char>, b: Seq<char>)
    ensures
        lex_le(a, b) || lex_le(b, a),
    decreases a.len(),
{
    if a.len() > 0 && b.len() > 0 && a[0] == b[0] {
        lemma_lex_total(a.drop_first(), b.drop_first());
    }
}

/// The order of texts is transitive.
pub proof fn lemma_lex_trans(a: Seq<char>, b: Seq<char>, c: Seq<char>)
    requires
        lex_le(a, b),
        lex_le(b, c),
    ensures
        lex_le(a, c),
    decreases a.len(),
{
    if a.len() > 0 && b.len() > 0 && c.len() > 0 && a[0] == b[0] && b[0] == c[0] {
        lemma_lex_trans(a.drop_first(), b.drop_first(), c.drop_first());
    }
}

/// Compares two texts in lexicographic order.
pub fn chars_le(a: &Vec<char>, b: &Vec<char>) -> (r: bool)
    ensures
        r == lex_le(a@, b@),
{
    let mut i: usize = 0;
    assert(a@.skip(0) =~= a@);
    assert(b@.skip(0) =~= b@);
    while i < a.len() && i < b.len() && a[i] == b[i]
        invariant
            i <= a@.len(),
            i <= b@.len(),
            lex_le(a@, b@) == lex_le(a@.skip(i as int), b@.skip(i as int)),
        decreases a@.len() - i,
    {
        assert(a@.skip(i as int).drop_first() =~= a@.skip(i + 1));
        assert(b@.skip(i as int).drop_first() =~= b@.skip(i + 1));
        i = i + 1;
    }
    if i == a.len() {
        return true;
    }
    if i == b.len() {
        return false;
    }
    assert(a@.skip(i as int)[0] == a@[i as int]);
    assert(b@.skip(i as int)[0] == b@[i as int]);
    a[i] < b[i]
}

// ---------------------------------------------------------------------------
// File names
// ---------------------------------------------------------------------------

/// Names in order of their ASCII-lower-case forms.
pub open spec fn names_sorted(s: Seq<Seq<char>>) -> bool {
    forall|i: int, j: int| 0 <= i < j < s.len() ==> lex_le(ascii_lower(s[i]), ascii_lower(s[j]))
}

/// The lower-case form of a name, as characters.
fn lower_chars(name: &str) -> (v: Vec<char>)
    ensures
        v@ == ascii_lower(name@),
{
    let c = chars_of(name);
    let mut v: Vec<char> = Vec::new();
    let mut i: usize = 0;
    while i < c.len()
        invariant
            c@ == name@,
            i <= c@.len(),
            v@ == ascii_lower(name@.take(i as int)),
        decreases c@.len() - i,
    {
        let ch = c[i];
        v.push(crate::text::lower_char(ch));
        assert(ascii_lower(name@.take(i + 1)) =~= ascii_lower(name@.take(i as int)).push(
            ascii_lower_char(ch),
        ));
        i = i + 1;
    }
    assert(name@.take(i as int) =~= name@);
    v
}

/// Sorts names by their ASCII-lower-case forms, keeping the order of names
/// that compare equal, as `sort_by_key(str::to_ascii_lowercase)` does.
pub fn sort_names(names: &Vec<String>) -> (v: Vec<String>)
    ensures
        v@.len() == names@.len(),
        names_sorted(crate::text::strings_view(v@)),
        forall|k: int| 0 <= k < names@.len() ==> crate::text::strings_view(v@).contains(
            #[trigger] names@[k]@,
        ),
{
    let mut keyed: Vec<(Vec<char>, String)> = Vec::new();
    let mut i: usize = 0;
    while i < names.len()
        invariant
            i <= names@.len(),
            keyed@.len() == i,
            forall|a: int, b: int| 0 <= a < b < keyed@.len() ==> lex_le(keyed@[a].0@, keyed@[b].0@),
            forall|a: int| 0 <= a < keyed@.len() ==> (#[trigger] keyed@[a]).0@ == ascii_lower(keyed@[a].1@),
            forall|k: int| 0 <= k < i ==> exists|a: int| 0 <= a < keyed@.len() && keyed@[a].1@ == (#[trigger] names@[k])@,
        decreases names@.len() - i,
    {
        let name = names[i].clone();
        let key = lower_chars(name.as_str());
        let mut p: usize = keyed.len();
        while p > 0 && !chars_le(&keyed[p - 1].0, &key)
            invariant
                p <= keyed@.len(),
                forall|k: int| p <= k < keyed@.len() ==> !lex_le(keyed@[k].0@, key@),
            decreases p,
        {
            p = p - 1;
        }
        let ghost before = keyed@;
        let ghost entry = (key, name);
        keyed.insert(p, (key, name));
        proof {
            assert(keyed@ == before.insert(p as int, entry));
            assert forall|a: int, b: int| 0 <= a < b < keyed@.len() implies lex_le(keyed@[a].0@, keyed@[b].0@) by {
                if b < p {
                    assert(keyed@[a] == before[a] && keyed@[b] == before[b]);
                } else if b == p {
                    assert(keyed@[a] == before[a]);
                    if a < p - 1 {
                        lemma_lex_trans(before[a].0@, before[p - 1].0@, entry.0@);
                    }
                } else if a < p {
                    assert(keyed@[a] == before[a] && keyed@[b] == before[b - 1]);
                } else if a == p {
                    assert(keyed@[b] == before[b - 1]);
                    lemma_lex_total(before[b - 1].0@, entry.0@);
                } else {
                    assert(keyed@[a] == before[a - 1] && keyed@[b] == before[b - 1]);
                }
            }
            assert forall|a: int| 0 <= a < keyed@.len() implies (#[trigger] keyed@[a]).0@ == ascii_lower(keyed@[a].1@) by {
                if a < p {
                    assert(keyed@[a] == before[a]);
                } else if a > p {
                    assert(keyed@[a] == before[a - 1]);
                }
            }
            assert forall|k: int| 0 <= k < i + 1 implies exists|a: int| 0 <= a < keyed@.len() && keyed@[a].1@ == (#[trigger] names@[k])@ by {
                if k < i {
                    let a = choose|a: int| 0 <= a < before.len() && before[a].1@ == names@[k]@;
                    if a < p {
                        assert(keyed@[a] == before[a]);
                    } else {
                        assert(keyed@[a + 1] == before[a]);
                    }
                } else {
                    assert(keyed@[p as int].1@ == names@[k]@);
                }
            }
        }
        i = i + 1;
    }
    let mut v: Vec<String> = Vec::new();
    let mut j: usize = 0;
    while j < keyed.len()
        invariant
            v@.len() == j,
            j <= keyed@.len(),
            forall|a: int| 0 <= a < j ==> (#[trigger] v@[a])@ == keyed@[a].1@,
        decreases keyed@.len() - j,
    {
        v.push(keyed[j].1.clone());
        j = j + 1;
    }
    proof {
        let sv = crate::text::strings_view(v@);
        assert forall|a: int, b: int| 0 <= a < b < sv.len() implies lex_le(ascii_lower(sv[a]), ascii_lower(sv[b])) by {
            assert(sv[a] == v@[a]@ && sv[b] == v@[b]@);
            assert(keyed@[a].0@ == ascii_lower(keyed@[a].1@));
            assert(keyed@[b].0@ == ascii_lower(keyed@[b].1@));
        }
        assert forall|k: int| 0 <= k < names@.len() implies sv.contains(#[trigger] names@[k]@) by {
            let a = choose|a: int| 0 <= a < keyed@.len() && keyed@[a].1@ == names@[k]@;
            assert(sv[a] == v@[a]@);
        }
    }
    v
}

// ---------------------------------------------------------------------------
// Serial ports
// ---------------------------------------------------------------------------

/// Ports in the order the user sees them: known bridges first, then by the
/// text before the number, then by the number.
pub open spec fn key_le(b1: bool, p1: Seq<char>, n1: u32, b2: bool, p2: Seq<char>, n2: u32) -> bool {
    if b1 != b2 {
        b1
    } else if p1 != p2 {
        lex_le(p1, p2)
    } else {
        n1 <= n2
    }
}

pub open spec fn port_le(a: PortCandidate, b: PortCandidate) -> bool {
    let ka = spec_natural_port_key(a.port@);
    let kb = spec_natural_port_key(b.port@);
    key_le(a.known_bridge, ka.0, ka.1, b.known_bridge, kb.0, kb.1)
}

pub open spec fn ports_sorted(s: Seq<PortCandidate>) -> bool {
    forall|i: int, j: int| 0 <= i < j < s.len() ==> port_le(s[i], s[j])
}

proof fn lemma_lex_antisym(a: Seq<char>, b: Seq<char>)
    requires
        lex_le(a, b),
        lex_le(b, a),
    ensures
        a == b,
    decreases a.len(),
{
    if a.len() > 0 && b.len() > 0 && a[0] == b[0] {
        lemma_lex_antisym(a.drop_first(), b.drop_first());
        assert(a =~= seq![a[0]] + a.drop_first());
        assert(b =~= seq![b[0]] + b.drop_first());
    }
}

proof fn lemma_key_total(b1: bool, p1: Seq<char>, n1: u32, b2: bool, p2: Seq<char>, n2: u32)
    ensures
        key_le(b1, p1, n1, b2, p2, n2) || key_le(b2, p2, n2, b1, p1, n1),
{
    lemma_lex_total(p1, p2);
}

proof fn lemma_key_trans(
    b1: bool,
    p1: Seq<char>,
    n1: u32,
    b2: bool,
    p2: Seq<char>,
    n2: u32,
    b3: bool,
    p3: Seq<char>,
    n3: u32,
)
    requires
        key_le(b1, p1, n1, b2, p2, n2),
        key_le(b2, p2, n2, b3, p3, n3),
    ensures
        key_le(b1, p1, n1, b3, p3, n3),
{
    if b1 == b2 && b2 == b3 {
        if p1 != p2 && p2 != p3 {
            lemma_lex_trans(p1, p2, p3);
            if p1 == p3 {
                lemma_lex_antisym(p1, p2);
            }
        } else if p1 == p2 && p2 != p3 {
        } else if p1 != p2 && p2 == p3 {
        }
    }
}

/// Sorts ports as the user sees them, keeping the order of equal keys, as
/// `sort_by_key(|p| (!p.known_bridge, natural_port_key(&p.port)))` does.
pub fn order_ports(ports: Vec<PortCandidate>) -> (v: Vec<PortCandidate>)
    ensures
        v@.len() == ports@.len(),
        ports_sorted(v@),
        forall|k: int| 0 <= k < ports@.len() ==> v@.contains(#[trigger] ports@[k]),
{
    let ghost all = ports@;
    let mut rest = ports;
    let mut keyed: Vec<(bool, Vec<char>, u32, PortCandidate)> = Vec::new();
    while rest.len() > 0
        invariant
            keyed@.len() + rest@.len() == all.len(),
            rest@ == all.skip(keyed@.len() as int),
            forall|a: int, b: int| 0 <= a < b < keyed@.len() ==> key_le(
                keyed@[a].0,
                keyed@[a].1@,
                keyed@[a].2,
                keyed@[b].0,
                keyed@[b].1@,
                keyed@[b].2,
            ),
            forall|a: int| 0 <= a < keyed@.len() ==> {
                let e = #[trigger] keyed@[a];
                &&& e.0 == e.3.known_bridge
                &&& e.1@ == spec_natural_port_key(e.3.port@).0
                &&& e.2 == spec_natural_port_key(e.3.port@).1
            },
            forall|k: int| 0 <= k < keyed@.len() ==> exists|a: int| 0 <= a < keyed@.len() && keyed@[a].3 == #[trigger] all[k],
        decreases rest@.len(),
    {
        let ghost taken = keyed@.len();
        let port = rest.remove(0);
        assert(port == all[taken as int]);
        assert(rest@ =~= all.skip(taken + 1int));
        let key = natural_port_key(port.port.as_str());
        let prefix = chars_of(key.0.as_str());
        let bridge = port.known_bridge;
        let number = key.1;
        let mut p: usize = keyed.len();
        while p > 0 && !(keyed[p - 1].0 != bridge && keyed[p - 1].0 || keyed[p - 1].0 == bridge
            && !vec_eq(&keyed[p - 1].1, &prefix) && chars_le(&keyed[p - 1].1, &prefix)
            || keyed[p - 1].0 == bridge && vec_eq(&keyed[p - 1].1, &prefix) && keyed[p - 1].2 <= number)
            invariant
                p <= keyed@.len(),
                forall|k: int| p <= k < keyed@.len() ==> !key_le(
                    keyed@[k].0,
                    keyed@[k].1@,
                    keyed@[k].2,
                    bridge,
                    prefix@,
                    number,
                ),
            decreases p,
        {
            p = p - 1;
        }
        let ghost before = keyed@;
        let ghost entry = (bridge, prefix, number, port);
        keyed.insert(p, (bridge, prefix, number, port));
        proof {
            assert(keyed@ == before.insert(p as int, entry));
            assert forall|a: int, b: int| 0 <= a < b < keyed@.len() implies key_le(
                keyed@[a].0,
                keyed@[a].1@,
                keyed@[a].2,
                keyed@[b].0,
                keyed@[b].1@,
                keyed@[b].2,
            ) by {
                if b < p {
                    assert(keyed@[a] == before[a] && keyed@[b] == before[b]);
                } else if b == p {
                    assert(keyed@[a] == before[a]);
                    if a < p - 1 {
                        lemma_key_trans(
                            before[a].0,
                            before[a].1@,
                            before[a].2,
                            before[p - 1].0,
                            before[p - 1].1@,
                            before[p - 1].2,
                            bridge,
                            entry.1@,
                            number,
                        );
                    }
                } else if a < p {
                    assert(keyed@[a] == before[a] && keyed@[b] == before[b - 1]);
                } else if a == p {
                    assert(keyed@[b] == before[b - 1]);
                    lemma_key_total(before[b - 1].0, before[b - 1].1@, before[b - 1].2, bridge, entry.1@, number);
                } else {
                    assert(keyed@[a] == before[a - 1] && keyed@[b] == before[b - 1]);
                }
            }
            assert forall|a: int| 0 <= a < keyed@.len() implies {
                let e = #[trigger] keyed@[a];
                &&& e.0 == e.3.known_bridge
                &&& e.1@ == spec_natural_port_key(e.3.port@).0
                &&& e.2 == spec_natural_port_key(e.3.port@).1
            } by {
                if a < p {
                    assert(keyed@[a] == before[a]);
                } else if a > p {
                    assert(keyed@[a] == before[a - 1]);
                }
            }
            assert forall|k: int| 0 <= k < keyed@.len() implies exists|a: int| 0 <= a < keyed@.len() && keyed@[a].3 == #[trigger] all[k] by {
                if k < taken {
                    let a = choose|a: int| 0 <= a < before.len() && before[a].3 == all[k];
                    if a < p {
                        assert(keyed@[a] == before[a]);
                    } else {
                        assert(keyed@[a + 1] == before[a]);
                    }
                } else {
                    assert(keyed@[p as int].3 == all[k]);
                }
            }
        }
    }
    let ghost sorted = keyed@;
    let mut v: Vec<PortCandidate> = Vec::new();
    while keyed.len() > 0
        invariant
            v@.len() + keyed@.len() == sorted.len(),
            keyed@ == sorted.skip(v@.len() as int),
            forall|a: int| 0 <= a < v@.len() ==> v@[a] == sorted[a].3,
        decreases keyed@.len(),
    {
        let ghost done = v@.len();
        let entry = keyed.remove(0);
        assert(entry == sorted[done as int]);
        assert(keyed@ =~= sorted.skip(done + 1int));
        v.push(entry.3);
    }
    proof {
        assert forall|a: int, b: int| 0 <= a < b < v@.len() implies port_le(v@[a], v@[b]) by {
            let ea = sorted[a];
            let eb = sorted[b];
            assert(ea.1@ == spec_natural_port_key(ea.3.port@).0);
            assert(eb.1@ == spec_natural_port_key(eb.3.port@).0);
        }
        assert forall|k: int| 0 <= k < all.len() implies v@.contains(#[trigger] all[k]) by {
            let a = choose|a: int| 0 <= a < sorted.len() && sorted[a].3 == all[k];
            assert(v@[a] == all[k]);
        }
    }
    v
}

/// Whether two texts are the same.
fn vec_eq(a: &Vec<char>, b: &Vec<char>) -> (r: bool)
    ensures
        r == (a@ == b@),
{
    if a.len() != b.len() {
        return false;
    }
    let mut i: usize = 0;
    while i < a.len()
        invariant
            a@.len() == b@.len(),
            i <= a@.len(),
            forall|k: int| 0 <= k < i ==> a@[k] == b@[k],
        decreases a@.len() - i,
    {
        if a[i] != b[i] {
            return false;
        }
        i = i + 1;
    }
    assert(a@ =~= b@);
    true
}

} // verus!
