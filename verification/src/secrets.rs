//! The secrets of one environment: names and values, ordered by name.
use vstd::prelude::*;

use crate::json::{is_text, Json};

verus! {

/// `a < b` for text: lexicographic by character code, which is the order of
/// `String`'s `Ord` (UTF-8 keeps the order of code points).
pub open spec fn text_lt(a: Seq<char>, b: Seq<char>) -> bool
    decreases a.len(),
{
    if a.len() == 0 {
        b.len() > 0
    } else if b.len() == 0 {
        false
    } else if a[0] != b[0] {
        a[0] < b[0]
    } else {
        text_lt(a.drop_first(), b.drop_first())
    }
}

pub proof fn lemma_text_lt_irreflexive(a: Seq<char>)
    ensures
        !text_lt(a, a),
    decreases a.len(),
{
    if a.len() > 0 {
        lemma_text_lt_irreflexive(a.drop_first());
    }
}

pub proof fn lemma_text_lt_total(a: Seq<char>, b: Seq<char>)
    ensures
        a == b || text_lt(a, b) || text_lt(b, a),
        !(text_lt(a, b) && text_lt(b, a)),
    decreases a.len(),
{
    if a.len() > 0 && b.len() > 0 {
        if a[0] == b[0] {
            lemma_text_lt_total(a.drop_first(), b.drop_first());
            if a.drop_first() == b.drop_first() {
                assert(a =~= seq![a[0]] + a.drop_first());
                assert(b =~= seq![b[0]] + b.drop_first());
            }
        }
    } else if a.len() == 0 && b.len() == 0 {
        assert(a =~= b);
    }
}

pub proof fn lemma_text_lt_transitive(a: Seq<char>, b: Seq<char>, c: Seq<char>)
    requires
        text_lt(a, b),
        text_lt(b, c),
    ensures
        text_lt(a, c),
    decreases a.len(),
{
    if a.len() > 0 && b.len() > 0 && c.len() > 0 {
        if a[0] == b[0] && b[0] == c[0] {
            lemma_text_lt_transitive(a.drop_first(), b.drop_first(), c.drop_first());
        }
    }
}

/// Whether `a` sorts before `b`.
pub fn text_less(a: &str, b: &str) -> (r: bool)
    ensures
        r == text_lt(a@, b@),
{
    let x = crate::text::chars_of(a);
    let y = crate::text::chars_of(b);
    let mut i: usize = 0;
    let n = x.len();
    let m = y.len();
    assert(x@.skip(0) == x@);
    assert(y@.skip(0) == y@);
    while i < n && i < m && x[i] == y[i]
        invariant
            i <= n == x@.len(),
            i <= m == y@.len(),
            text_lt(x@, y@) == text_lt(x@.skip(i as int), y@.skip(i as int)),
        decreases n - i,
    {
        assert(x@.skip(i as int).drop_first() == x@.skip(i + 1));
        assert(y@.skip(i as int).drop_first() == y@.skip(i + 1));
        i = i + 1;
    }
    assert(x@.skip(0) == x@);
    assert(y@.skip(0) == y@);
    if i == n {
        i < m
    } else if i == m {
        false
    } else {
        x[i] < y[i]
    }
}

/// Whether the names in `s` increase strictly.
pub open spec fn ascending(s: Seq<(Seq<char>, Seq<char>)>) -> bool {
    forall|i: int, j: int| 0 <= i < j < s.len() ==> text_lt(#[trigger] s[i].0, #[trigger] s[j].0)
}

/// The index at which `name` stands or would be inserted in ascending `s`:
/// the number of leading entries whose names sort before it.
pub open spec fn position(s: Seq<(Seq<char>, Seq<char>)>, name: Seq<char>) -> int
    decreases s.len(),
{
    if s.len() == 0 {
        0
    } else if text_lt(s[0].0, name) {
        1 + position(s.drop_first(), name)
    } else {
        0
    }
}

/// `BTreeMap::insert` on ascending entries: replace the value of `name`, or
/// add `(name, value)` where it sorts.
pub open spec fn insert_sorted(
    s: Seq<(Seq<char>, Seq<char>)>,
    name: Seq<char>,
    value: Seq<char>,
) -> Seq<(Seq<char>, Seq<char>)> {
    let i = position(s, name);
    if i < s.len() && s[i].0 == name {
        s.update(i, (name, value))
    } else {
        s.insert(i, (name, value))
    }
}

/// The value for `name`, if any.
pub open spec fn value_of(s: Seq<(Seq<char>, Seq<char>)>, name: Seq<char>) -> Option<Seq<char>> {
    if exists|i: int| 0 <= i < s.len() && s[i].0 == name {
        Some(s[choose|i: int| 0 <= i < s.len() && s[i].0 == name].1)
    } else {
        None
    }
}

proof fn lemma_position(s: Seq<(Seq<char>, Seq<char>)>, name: Seq<char>)
    requires
        ascending(s),
    ensures
        0 <= position(s, name) <= s.len(),
        forall|j: int| 0 <= j < position(s, name) ==> text_lt(#[trigger] s[j].0, name),
        position(s, name) < s.len() ==> !text_lt(s[position(s, name)].0, name),
    decreases s.len(),
{
    if s.len() > 0 && text_lt(s[0].0, name) {
        let t = s.drop_first();
        assert forall|i: int, j: int| 0 <= i < j < t.len() implies text_lt(
            #[trigger] t[i].0,
            #[trigger] t[j].0,
        ) by {
            assert(t[i] == s[i + 1]);
            assert(t[j] == s[j + 1]);
        }
        lemma_position(t, name);
        assert forall|j: int| 0 <= j < position(s, name) implies text_lt(#[trigger] s[j].0, name) by {
            if j > 0 {
                assert(s[j] == t[j - 1]);
            }
        }
    }
}

pub proof fn lemma_insert_sorted(s: Seq<(Seq<char>, Seq<char>)>, name: Seq<char>, value: Seq<char>)
    requires
        ascending(s),
    ensures
        ascending(insert_sorted(s, name, value)),
        value_of(insert_sorted(s, name, value), name) == Some(value),
{
    lemma_position(s, name);
    let i = position(s, name);
    let r = insert_sorted(s, name, value);
    if i < s.len() && s[i].0 == name {
        assert forall|a: int, b: int| 0 <= a < b < r.len() implies text_lt(
            #[trigger] r[a].0,
            #[trigger] r[b].0,
        ) by {
            assert(text_lt(s[a].0, s[b].0));
        }
        assert(r[i].0 == name);
    } else {
        if i < s.len() {
            lemma_text_lt_total(s[i].0, name);
        }
        assert forall|a: int, b: int| 0 <= a < b < r.len() implies text_lt(
            #[trigger] r[a].0,
            #[trigger] r[b].0,
        ) by {
            if b < i {
                assert(r[a] == s[a] && r[b] == s[b]);
            } else if b == i {
                assert(r[a] == s[a]);
            } else if a == i {
                assert(r[b] == s[b - 1]);
                if b - 1 > i {
                    assert(text_lt(s[i].0, s[b - 1].0));
                    lemma_text_lt_transitive(name, s[i].0, s[b - 1].0);
                }
            } else if a < i {
                assert(r[a] == s[a] && r[b] == s[b - 1]);
                assert(text_lt(s[a].0, name));
                if b - 1 >= i {
                    lemma_position_tail(s, name, b - 1);
                    lemma_text_lt_transitive(s[a].0, name, s[b - 1].0);
                }
            } else {
                assert(r[a] == s[a - 1] && r[b] == s[b - 1]);
            }
        }
        assert(r[i].0 == name);
    }
    assert(r[i].1 == value);
    assert(exists|k: int| 0 <= k < r.len() && r[k].0 == name);
    let k = choose|k: int| 0 <= k < r.len() && r[k].0 == name;
    assert(0 <= k < r.len() && r[k].0 == name);
    lemma_text_lt_irreflexive(name);
    if k < i {
        assert(text_lt(r[k].0, r[i].0));
    } else if k > i {
        assert(text_lt(r[i].0, r[k].0));
    }
    assert(k == i);
}

/// In ascending entries a name stands once, so its value is the one beside it.
pub proof fn lemma_value_at(s: Seq<(Seq<char>, Seq<char>)>, k: int)
    requires
        ascending(s),
        0 <= k < s.len(),
    ensures
        value_of(s, s[k].0) == Some(s[k].1),
{
    let name = s[k].0;
    assert(exists|i: int| 0 <= i < s.len() && s[i].0 == name);
    let j = choose|i: int| 0 <= i < s.len() && s[i].0 == name;
    lemma_text_lt_irreflexive(name);
    if j < k {
        assert(text_lt(s[j].0, s[k].0));
    } else if j > k {
        assert(text_lt(s[k].0, s[j].0));
    }
}

/// Inserting one name leaves the value of every other name as it was.
pub proof fn lemma_insert_other(
    s: Seq<(Seq<char>, Seq<char>)>,
    name: Seq<char>,
    value: Seq<char>,
    other: Seq<char>,
)
    requires
        ascending(s),
        other != name,
    ensures
        value_of(insert_sorted(s, name, value), other) == value_of(s, other),
{
    lemma_insert_sorted(s, name, value);
    lemma_position(s, name);
    let i = position(s, name);
    let r = insert_sorted(s, name, value);
    let updated = i < s.len() && s[i].0 == name;
    if exists|k: int| 0 <= k < s.len() && s[k].0 == other {
        let k = choose|k: int| 0 <= k < s.len() && s[k].0 == other;
        lemma_value_at(s, k);
        if updated || k < i {
            assert(r[k] == s[k]);
            lemma_value_at(r, k);
        } else {
            assert(r[k + 1] == s[k]);
            lemma_value_at(r, k + 1);
        }
    } else {
        assert forall|k: int| 0 <= k < r.len() implies (#[trigger] r[k]).0 != other by {
            if updated {
                if k != i {
                    assert(r[k] == s[k]);
                }
            } else if k < i {
                assert(r[k] == s[k]);
            } else if k > i {
                assert(r[k] == s[k - 1]);
            }
        }
    }
}

proof fn lemma_position_tail(s: Seq<(Seq<char>, Seq<char>)>, name: Seq<char>, b: int)
    requires
        ascending(s),
        position(s, name) <= b < s.len(),
        !(position(s, name) < s.len() && s[position(s, name)].0 == name),
    ensures
        text_lt(name, s[b].0),
{
    lemma_position(s, name);
    let i = position(s, name);
    lemma_text_lt_total(s[i].0, name);
    if b > i {
        assert(text_lt(s[i].0, s[b].0));
        lemma_text_lt_transitive(name, s[i].0, s[b].0);
    }
}

/// The entries of `s` whose names are among `names`, in order.
pub open spec fn keep_named(s: Seq<(Seq<char>, Seq<char>)>, names: Seq<Seq<char>>) -> Seq<
    (Seq<char>, Seq<char>),
>
    decreases s.len(),
{
    if s.len() == 0 {
        s
    } else {
        let sub = keep_named(s.drop_last(), names);
        if names.contains(s.last().0) {
            sub.push(s.last())
        } else {
            sub
        }
    }
}

pub proof fn lemma_keep_named(s: Seq<(Seq<char>, Seq<char>)>, names: Seq<Seq<char>>)
    requires
        ascending(s),
    ensures
        ascending(keep_named(s, names)),
        forall|i: int|
            0 <= i < keep_named(s, names).len() ==> names.contains(
                (#[trigger] keep_named(s, names)[i]).0,
            ) && s.contains(keep_named(s, names)[i]),
        forall|i: int|
            0 <= i < s.len() && names.contains(s[i].0) ==> keep_named(s, names).contains(
                #[trigger] s[i],
            ),
    decreases s.len(),
{
    if s.len() > 0 {
        let t = s.drop_last();
        assert forall|i: int, j: int| 0 <= i < j < t.len() implies text_lt(
            #[trigger] t[i].0,
            #[trigger] t[j].0,
        ) by {
            assert(t[i] == s[i] && t[j] == s[j]);
        }
        lemma_keep_named(t, names);
        let sub = keep_named(t, names);
        let r = keep_named(s, names);
        assert forall|i: int| 0 <= i < sub.len() implies text_lt(
            (#[trigger] sub[i]).0,
            s.last().0,
        ) by {
            assert(t.contains(sub[i]));
            let j = choose|j: int| 0 <= j < t.len() && t[j] == sub[i];
            assert(s[j] == t[j]);
            assert(text_lt(s[j].0, s[s.len() - 1].0));
        }
        assert forall|i: int| 0 <= i < r.len() implies names.contains((#[trigger] r[i]).0)
            && s.contains(r[i]) by {
            if i < sub.len() {
                assert(r[i] == sub[i]);
                assert(t.contains(sub[i]));
                let j = choose|j: int| 0 <= j < t.len() && t[j] == sub[i];
                assert(s[j] == t[j]);
            } else {
                assert(r[i] == s[s.len() - 1]);
            }
        }
        assert forall|i: int| 0 <= i < s.len() && names.contains(s[i].0) implies r.contains(
            #[trigger] s[i],
        ) by {
            if i < s.len() - 1 {
                assert(t[i] == s[i]);
                assert(sub.contains(t[i]));
                let j = choose|j: int| 0 <= j < sub.len() && sub[j] == t[i];
                if names.contains(s.last().0) {
                    assert(r[j] == sub[j]);
                } else {
                    assert(r[j] == sub[j]);
                }
            } else {
                assert(r[r.len() - 1] == s[i]);
            }
        }
        assert forall|i: int, j: int| 0 <= i < j < r.len() implies text_lt(
            #[trigger] r[i].0,
            #[trigger] r[j].0,
        ) by {
            if j < sub.len() {
                assert(r[i] == sub[i] && r[j] == sub[j]);
            } else {
                assert(r[i] == sub[i]);
            }
        }
    }
}

/// The names of the entries `s`, in order.
pub open spec fn names_view(s: Seq<(Seq<char>, Seq<char>)>) -> Seq<Seq<char>> {
    s.map_values(|e: (Seq<char>, Seq<char>)| e.0)
}

/// Whether `j` is the JSON object of the entries `s`, one text member each.
pub open spec fn json_of(j: Json, s: Seq<(Seq<char>, Seq<char>)>) -> bool {
    match j {
        Json::Object(m) => m@.len() == s.len() && forall|i: int|
            0 <= i < m@.len() ==> (#[trigger] m@[i]).0@ == s[i].0 && is_text(m@[i].1, s[i].1),
        _ => false,
    }
}

/// Names and values, ascending by name, no name twice.
pub struct Secrets {
    entries: Vec<(String, String)>,
}

/// The entries of `v` as text.
pub open spec fn entries_view(v: Seq<(String, String)>) -> Seq<(Seq<char>, Seq<char>)> {
    v.map_values(|e: (String, String)| (e.0@, e.1@))
}

impl View for Secrets {
    type V = Seq<(Seq<char>, Seq<char>)>;

    closed spec fn view(&self) -> Seq<(Seq<char>, Seq<char>)> {
        entries_view(self.entries@)
    }
}

impl Secrets {
    #[verifier::type_invariant]
    spec fn well_formed(self) -> bool {
        ascending(entries_view(self.entries@))
    }

    /// The entries ascend by name.
    pub fn ascends(&self)
        ensures
            ascending(self@),
    {
        proof {
            use_type_invariant(self);
        }
    }

    /// No secrets.
    pub fn new() -> (r: Secrets)
        ensures
            r@ == Seq::<(Seq<char>, Seq<char>)>::empty(),
    {
        let r = Secrets { entries: Vec::new() };
        assert(entries_view(r.entries@) =~= Seq::<(Seq<char>, Seq<char>)>::empty());
        r
    }

    /// How many secrets.
    pub fn len(&self) -> (r: usize)
        ensures
            r == self@.len(),
    {
        self.entries.len()
    }

    /// Whether there are none.
    pub fn is_empty(&self) -> (r: bool)
        ensures
            r == (self@.len() == 0),
    {
        self.entries.len() == 0
    }

    /// The name and value at `i`.
    pub fn entry(&self, i: usize) -> (r: (&str, &str))
        requires
            i < self@.len(),
        ensures
            r.0@ == self@[i as int].0,
            r.1@ == self@[i as int].1,
    {
        let e = &self.entries[i];
        (e.0.as_str(), e.1.as_str())
    }

    /// The value of `name`, if there is one.
    pub fn get(&self, name: &str) -> (r: Option<&str>)
        ensures
            r matches Some(v) ==> value_of(self@, name@) == Some(v@),
            r is None ==> value_of(self@, name@) is None,
    {
        proof {
            use_type_invariant(self);
        }
        let n = self.entries.len();
        for i in 0..n
            invariant
                n == self.entries@.len(),
                self@ == entries_view(self.entries@),
                ascending(self@),
                forall|j: int| 0 <= j < i ==> self@[j].0 != name@,
        {
            if crate::text::same(self.entries[i].0.as_str(), name) {
                proof {
                    assert(self@[i as int].0 == name@);
                    let k = choose|k: int| 0 <= k < self@.len() && self@[k].0 == name@;
                    assert(0 <= k < self@.len() && self@[k].0 == name@);
                    if k != i {
                        lemma_text_lt_irreflexive(name@);
                        assert(self@[k].0 == self@[i as int].0);
                        if k < i {
                            assert(text_lt(self@[k].0, self@[i as int].0));
                        } else {
                            assert(text_lt(self@[i as int].0, self@[k].0));
                        }
                    }
                }
                return Some(self.entries[i].1.as_str());
            }
        }
        None
    }

    /// Sets `name` to `value`, keeping the order.
    pub fn insert(&mut self, name: String, value: String)
        ensures
            final(self)@ == insert_sorted(old(self)@, name@, value@),
            value_of(final(self)@, name@) == Some(value@),
    {
        proof {
            use_type_invariant(&*self);
            lemma_position(self@, name@);
        }
        let ghost s = self@;
        let n = self.entries.len();
        let mut i: usize = 0;
        assert(s.skip(0) =~= s);
        while i < n && text_less(self.entries[i].0.as_str(), name.as_str())
            invariant
                i <= n == self.entries@.len(),
                s == entries_view(self.entries@),
                ascending(s),
                position(s, name@) == i + position(s.skip(i as int), name@),
            decreases n - i,
        {
            assert(s.skip(i as int).drop_first() =~= s.skip(i + 1));
            assert(s.skip(i as int)[0] == s[i as int]);
            i = i + 1;
        }
        proof {
            if i < n {
                assert(s.skip(i as int)[0] == s[i as int]);
            }
            assert(position(s, name@) == i);
            lemma_insert_sorted(s, name@, value@);
        }
        let mut entries = Vec::new();
        std::mem::swap(&mut entries, &mut self.entries);
        if i < n && crate::text::same(entries[i].0.as_str(), name.as_str()) {
            entries.set(i, (name, value));
            assert(entries_view(entries@) =~= insert_sorted(s, name@, value@));
        } else {
            entries.insert(i, (name, value));
            assert(entries_view(entries@) =~= insert_sorted(s, name@, value@));
        }
        self.entries = entries;
    }

    /// The secrets whose names are among `names`, in order.
    pub fn only(&self, names: &Vec<String>) -> (r: Secrets)
        ensures
            r@ == keep_named(self@, crate::text::texts_view(names@)),
    {
        proof {
            use_type_invariant(self);
        }
        let ghost ns = crate::text::texts_view(names@);
        let mut out: Vec<(String, String)> = Vec::new();
        let n = self.entries.len();
        for i in 0..n
            invariant
                n == self.entries@.len(),
                self@ == entries_view(self.entries@),
                ascending(self@),
                ns == crate::text::texts_view(names@),
                entries_view(out@) == keep_named(self@.take(i as int), ns),
        {
            assert(self@.take(i + 1).drop_last() == self@.take(i as int));
            assert(self@.take(i + 1).last() == self@[i as int]);
            if crate::text::contains_text(names, self.entries[i].0.as_str()) {
                let ghost before = out@;
                out.push((self.entries[i].0.clone(), self.entries[i].1.clone()));
                assert(entries_view(out@) =~= entries_view(before).push(self@[i as int]));
            }
        }
        assert(self@.take(n as int) == self@);
        proof {
            lemma_keep_named(self@, ns);
        }
        Secrets { entries: out }
    }

    /// The names, in order.
    pub fn names(&self) -> (r: Vec<String>)
        ensures
            crate::text::texts_view(r@) == names_view(self@),
    {
        let mut out: Vec<String> = Vec::new();
        let n = self.entries.len();
        for i in 0..n
            invariant
                n == self.entries@.len(),
                self@ == entries_view(self.entries@),
                crate::text::texts_view(out@) == names_view(self@.take(i as int)),
        {
            let ghost before = out@;
            out.push(self.entries[i].0.clone());
            assert(crate::text::texts_view(out@) =~= crate::text::texts_view(before).push(
                self@[i as int].0,
            ));
            assert(names_view(self@.take(i + 1)) =~= names_view(self@.take(i as int)).push(
                self@[i as int].0,
            ));
        }
        assert(self@.take(n as int) == self@);
        out
    }

    /// A JSON object with one text member per secret.
    pub fn to_json(&self) -> (r: Json)
        ensures
            json_of(r, self@),
    {
        let mut out: Vec<(String, Json)> = Vec::new();
        let n = self.entries.len();
        for i in 0..n
            invariant
                n == self.entries@.len(),
                self@ == entries_view(self.entries@),
                out@.len() == i,
                forall|k: int|
                    0 <= k < i ==> (#[trigger] out@[k]).0@ == self@[k].0 && is_text(out@[k].1, self@[k].1),
        {
            out.push((self.entries[i].0.clone(), Json::Text(self.entries[i].1.clone())));
        }
        Json::Object(out)
    }
}

} // verus!
