//! The presets of the model catalog: a table of named lists, in the order of the
//! names.
use crate::text::{self, chars_of, copy_list, same};
use vstd::prelude::*;

verus! {

/// Whether `a` comes before `b` in the order of their characters.
pub open spec fn name_less(a: Seq<char>, b: Seq<char>) -> bool
    decreases a.len(),
{
    if b.len() == 0 {
        false
    } else if a.len() == 0 {
        true
    } else if a[0] == b[0] {
        name_less(a.drop_first(), b.drop_first())
    } else {
        a[0] < b[0]
    }
}

/// Compares two names.
pub fn less(a: &str, b: &str) -> (r: bool)
    ensures
        r == name_less(a@, b@),
{
    let x = chars_of(a);
    let y = chars_of(b);
    let mut i: usize = 0;
    assert(a@.skip(0) =~= a@ && b@.skip(0) =~= b@);
    while i < x.len() && i < y.len() && x[i] == y[i]
        invariant
            x@ == a@,
            y@ == b@,
            i <= x@.len(),
            i <= y@.len(),
            name_less(a@, b@) == name_less(a@.skip(i as int), b@.skip(i as int)),
        decreases x@.len() - i,
    {
        assert(a@.skip(i as int).drop_first() =~= a@.skip(i + 1));
        assert(b@.skip(i as int).drop_first() =~= b@.skip(i + 1));
        i += 1;
    }
    if i == y.len() {
        false
    } else if i == x.len() {
        true
    } else {
        x[i] < y[i]
    }
}

/// Of two different names one comes first.
pub proof fn names_are_ordered(a: Seq<char>, b: Seq<char>)
    ensures
        !(name_less(a, b) && name_less(b, a)),
        a == b <==> !name_less(a, b) && !name_less(b, a),
    decreases a.len(),
{
    if a.len() > 0 && b.len() > 0 && a[0] == b[0] {
        names_are_ordered(a.drop_first(), b.drop_first());
        if a.drop_first() == b.drop_first() {
            assert(a =~= seq![a[0]] + a.drop_first());
            assert(b =~= seq![b[0]] + b.drop_first());
        }
    } else if a.len() == 0 && b.len() == 0 {
        assert(a =~= b);
    }
}

/// The order of names is transitive.
pub proof fn name_order_chains(a: Seq<char>, b: Seq<char>, c: Seq<char>)
    requires
        name_less(a, b),
        name_less(b, c),
    ensures
        name_less(a, c),
    decreases a.len(),
{
    if a.len() > 0 && b.len() > 0 && c.len() > 0 && a[0] == b[0] && b[0] == c[0] {
        name_order_chains(a.drop_first(), b.drop_first(), c.drop_first());
    }
}

/// A preset: a name, and the models that belong to it.
pub struct Preset {
    pub name: String,
    pub models: Vec<String>,
}

/// The contents of a [`Preset`].
pub struct PresetModel {
    pub name: Seq<char>,
    pub models: Seq<Seq<char>>,
}

impl View for Preset {
    type V = PresetModel;

    open spec fn view(&self) -> PresetModel {
        PresetModel { name: self.name@, models: text::strs(self.models@) }
    }
}

/// The presets, in the strict order of their names.
pub struct PresetTable {
    list: Vec<Preset>,
}

impl View for PresetTable {
    type V = Seq<PresetModel>;

    closed spec fn view(&self) -> Seq<PresetModel> {
        Seq::new(self.list@.len(), |i: int| self.list@[i]@)
    }
}

/// The names are in strict order, so none occurs twice.
pub open spec fn in_order(s: Seq<PresetModel>) -> bool {
    forall|i: int, j: int| 0 <= i < j < s.len() ==> name_less(#[trigger] s[i].name, #[trigger] s[j].name)
}

/// How many presets come before a name.
pub open spec fn rank(s: Seq<PresetModel>, name: Seq<char>) -> nat
    decreases s.len(),
{
    if s.len() == 0 {
        0
    } else {
        rank(s.drop_last(), name) + if name_less(s.last().name, name) {
            1nat
        } else {
            0nat
        }
    }
}

/// The table with a preset under its name; one that was there under this name
/// leaves.
pub open spec fn inserted(s: Seq<PresetModel>, p: PresetModel) -> Seq<PresetModel> {
    let k = rank(s, p.name) as int;
    if k < s.len() && s[k].name == p.name {
        s.update(k, p)
    } else {
        s.insert(k, p)
    }
}

/// In an ordered table exactly the presets below the rank come before the name.
proof fn lemma_rank(s: Seq<PresetModel>, name: Seq<char>)
    requires
        in_order(s),
    ensures
        rank(s, name) <= s.len(),
        forall|i: int| 0 <= i < s.len() ==> (name_less(#[trigger] s[i].name, name) <==> i < rank(s, name)),
    decreases s.len(),
{
    if s.len() > 0 {
        let before = s.drop_last();
        assert(in_order(before)) by {
            assert forall|i: int, j: int| 0 <= i < j < before.len() implies name_less(
                #[trigger] before[i].name,
                #[trigger] before[j].name,
            ) by {
                assert(name_less(s[i].name, s[j].name));
            }
        }
        lemma_rank(before, name);
        assert forall|i: int| 0 <= i < before.len() implies before[i] == s[i] by {}
        if name_less(s.last().name, name) {
            assert forall|i: int| 0 <= i < s.len() implies name_less(#[trigger] s[i].name, name) by {
                if i < before.len() {
                    name_order_chains(s[i].name, s[s.len() - 1].name, name);
                }
            }
            if before.len() > 0 {
                assert(name_less(before[before.len() - 1].name, name)) by {
                    assert(name_less(s[before.len() - 1].name, name));
                }
            }
        } else {
            assert forall|i: int| 0 <= i < s.len() implies (name_less(#[trigger] s[i].name, name) <==> i
                < rank(s, name)) by {
                if i < before.len() {
                    assert(name_less(before[i].name, name) <==> i < rank(before, name));
                }
            }
        }
    }
}

/// Putting a preset into an ordered table leaves it ordered, with the preset in it
/// and every other preset still there.
pub proof fn insert_keeps_order(s: Seq<PresetModel>, p: PresetModel)
    requires
        in_order(s),
    ensures
        in_order(inserted(s, p)),
        inserted(s, p).contains(p),
        forall|q: PresetModel| #[trigger] s.contains(q) && q.name != p.name ==> inserted(s, p).contains(q),
{
    lemma_rank(s, p.name);
    let k = rank(s, p.name) as int;
    let t = inserted(s, p);
    if k < s.len() {
        names_are_ordered(s[k].name, p.name);
    }
    assert(t[k] == p);
    assert forall|i: int, j: int| 0 <= i < j < t.len() implies name_less(
        #[trigger] t[i].name,
        #[trigger] t[j].name,
    ) by {
        if k < s.len() && s[k].name == p.name {
            assert(name_less(s[i].name, s[j].name));
        } else {
            if i < k {
                assert(name_less(s[i].name, p.name));
                if j > k {
                    assert(name_less(s[i].name, s[j - 1].name));
                } else if j < k {
                    assert(name_less(s[i].name, s[j].name));
                }
            } else if i == k {
                if j - 1 > k {
                    assert(name_less(s[k].name, s[j - 1].name));
                    name_order_chains(p.name, s[k].name, s[j - 1].name);
                }
            } else {
                assert(name_less(s[i - 1].name, s[j - 1].name));
            }
        }
    }
    assert forall|q: PresetModel| #[trigger] s.contains(q) && q.name != p.name implies t.contains(q) by {
        let i = choose|i: int| 0 <= i < s.len() && s[i] == q;
        if k < s.len() && s[k].name == p.name {
            assert(t[i] == q);
        } else if i < k {
            assert(t[i] == q);
        } else {
            assert(t[i + 1] == q);
        }
    }
}

/// The models of the preset with a name.
pub open spec fn preset_models(s: Seq<PresetModel>, name: Seq<char>) -> Option<Seq<Seq<char>>>
    decreases s.len(),
{
    if s.len() == 0 {
        None
    } else if s.last().name == name {
        Some(s.last().models)
    } else {
        preset_models(s.drop_last(), name)
    }
}

/// The names of the presets, in order.
pub open spec fn preset_names(s: Seq<PresetModel>) -> Seq<Seq<char>> {
    Seq::new(s.len(), |i: int| s[i].name)
}

impl PresetTable {
    /// The presets are in the strict order of their names.
    pub open spec fn wf(&self) -> bool {
        in_order(self@)
    }

    pub fn new() -> (r: Self)
        ensures
            r.wf(),
            r@ == Seq::<PresetModel>::empty(),
    {
        let r = PresetTable { list: Vec::new() };
        assert(r@ =~= Seq::<PresetModel>::empty());
        r
    }

    /// Puts a preset in its place; a preset with the same name is replaced.
    pub fn insert(&mut self, name: String, models: Vec<String>)
        requires
            old(self).wf(),
        ensures
            final(self).wf(),
            final(self)@ == inserted(
                old(self)@,
                (PresetModel { name: name@, models: text::strs(models@) }),
            ),
    {
        let ghost s = self@;
        let ghost p = PresetModel { name: name@, models: text::strs(models@) };
        proof {
            lemma_rank(s, name@);
            insert_keeps_order(s, p);
        }
        let n: usize = self.list.len();
        let mut k: usize = 0;
        while k < n && less(self.list[k].name.as_str(), name.as_str())
            invariant
                k <= n,
                n == self.list@.len(),
                s == self@,
                in_order(s),
                forall|i: int| 0 <= i < k ==> name_less(#[trigger] s[i].name, name@),
            decreases n - k,
        {
            assert(s[k as int].name == self.list@[k as int].name@);
            k += 1;
        }
        assert(k == rank(s, name@)) by {
            lemma_rank(s, name@);
            if k < n {
                assert(s[k as int].name == self.list@[k as int].name@);
            }
            if k > rank(s, name@) {
                assert(name_less(s[k - 1].name, name@));
            }
        }
        if k < n && same(self.list[k].name.as_str(), name.as_str()) {
            assert(s[k as int].name == name@);
            self.list.set(k, Preset { name, models });
            assert(self@ =~= s.update(k as int, p));
        } else {
            if k < n {
                assert(s[k as int].name == self.list@[k as int].name@);
            }
            self.list.insert(k, Preset { name, models });
            assert(self@ =~= s.insert(k as int, p));
        }
    }

    /// How many presets there are.
    pub fn len(&self) -> (r: usize)
        ensures
            r == self@.len(),
    {
        self.list.len()
    }

    /// The names of the presets, in order.
    pub fn names(&self) -> (r: Vec<String>)
        ensures
            text::strs(r@) == preset_names(self@),
    {
        let mut r: Vec<String> = Vec::new();
        let mut i: usize = 0;
        while i < self.list.len()
            invariant
                i <= self.list@.len(),
                text::strs(r@) == preset_names(self@).take(i as int),
            decreases self.list@.len() - i,
        {
            let ghost before = r@;
            r.push(self.list[i].name.clone());
            assert(text::strs(r@) =~= text::strs(before).push(self.list@[i as int].name@));
            assert(preset_names(self@).take(i + 1) =~= preset_names(self@).take(i as int).push(
                self@[i as int].name,
            ));
            i += 1;
        }
        assert(preset_names(self@).take(self.list@.len() as int) =~= preset_names(self@));
        r
    }

    /// The models of the preset with a name.
    pub fn get(&self, name: &str) -> (r: Option<Vec<String>>)
        ensures
            match r {
                Some(v) => preset_models(self@, name@) == Some(text::strs(v@)),
                None => preset_models(self@, name@) is None,
            },
    {
        let mut i: usize = self.list.len();
        assert(self@.take(i as int) =~= self@);
        while i > 0
            invariant
                i <= self.list@.len(),
                preset_models(self@, name@) == preset_models(self@.take(i as int), name@),
            decreases i,
        {
            assert(self@.take(i as int).last() == self.list@[i - 1]@);
            assert(self@.take(i as int).drop_last() =~= self@.take(i - 1));
            if same(self.list[i - 1].name.as_str(), name) {
                return Some(copy_list(&self.list[i - 1].models));
            }
            i -= 1;
        }
        None
    }
}

/// A table knows a name exactly when one of its presets has it.
pub proof fn known_names(s: Seq<PresetModel>, name: Seq<char>)
    ensures
        preset_models(s, name) is Some <==> preset_names(s).contains(name),
    decreases s.len(),
{
    if s.len() > 0 {
        let before = s.drop_last();
        known_names(before, name);
        let all = preset_names(s);
        let some = preset_names(before);
        if s.last().name == name {
            assert(all[s.len() - 1] == name);
        } else {
            if some.contains(name) {
                let k = choose|k: int| 0 <= k < some.len() && some[k] == name;
                assert(all[k] == name);
            }
            if all.contains(name) {
                let k = choose|k: int| 0 <= k < all.len() && all[k] == name;
                assert(some[k] == name);
            }
        }
    }
}

/// The order of names is that of a dictionary: by the first characters that differ,
/// and a name comes before those that it begins.
pub proof fn names_are_in_dictionary_order(a: Seq<char>, b: Seq<char>, k: int)
    requires
        0 <= k <= a.len(),
        0 <= k < b.len(),
        forall|i: int| 0 <= i < k ==> a[i] == b[i],
    ensures
        k == a.len() ==> name_less(a, b),
        k < a.len() && a[k] < b[k] ==> name_less(a, b),
        k < a.len() && a[k] > b[k] ==> !name_less(a, b),
    decreases k,
{
    if k > 0 {
        assert(a[0] == b[0]);
        names_are_in_dictionary_order(a.drop_first(), b.drop_first(), k - 1);
    }
}

proof fn lemma_found_by_name(s: Seq<PresetModel>, i: int)
    requires
        in_order(s),
        0 <= i < s.len(),
    ensures
        preset_models(s, s[i].name) == Some(s[i].models),
    decreases s.len(),
{
    let n = s.len() - 1;
    if i < n {
        assert(name_less(s[i].name, s[n].name));
        names_are_ordered(s[i].name, s[n].name);
        let before = s.drop_last();
        assert forall|a: int, b: int| 0 <= a < b < before.len() implies name_less(
            #[trigger] before[a].name,
            #[trigger] before[b].name,
        ) by {
            assert(name_less(s[a].name, s[b].name));
        }
        lemma_found_by_name(before, i);
        assert(before[i] == s[i]);
    }
}

/// What a table holds under a name: the models of the preset that has it. After a
/// preset was put in, its models are found under its name, and under every other name
/// what was found before.
pub proof fn presets_are_found_by_name(s: Seq<PresetModel>, p: PresetModel, name: Seq<char>)
    requires
        in_order(s),
    ensures
        forall|i: int|
            0 <= i < s.len() ==> preset_models(s, (#[trigger] s[i]).name) == Some(s[i].models),
        preset_models(inserted(s, p), p.name) == Some(p.models),
        name != p.name ==> preset_models(inserted(s, p), name) == preset_models(s, name),
        preset_names(s).len() == s.len(),
        forall|i: int| 0 <= i < s.len() ==> preset_names(s)[i] == (#[trigger] s[i]).name,
        preset_names(s).contains(p.name) ==> inserted(s, p).len() == s.len(),
        !preset_names(s).contains(p.name) ==> inserted(s, p).len() == s.len() + 1,
{
    let t = inserted(s, p);
    insert_keeps_order(s, p);
    lemma_rank(s, p.name);
    assert forall|i: int| 0 <= i < s.len() implies preset_models(s, (#[trigger] s[i]).name)
        == Some(s[i].models) by {
        lemma_found_by_name(s, i);
    }
    let at = choose|i: int| 0 <= i < t.len() && t[i] == p;
    lemma_found_by_name(t, at);
    let k = rank(s, p.name) as int;
    if k < s.len() && s[k].name == p.name {
        assert(preset_names(s)[k] == p.name);
    } else if preset_names(s).contains(p.name) {
        let j = choose|j: int| 0 <= j < s.len() && preset_names(s)[j] == p.name;
        names_are_ordered(p.name, p.name);
        assert(!name_less(s[j].name, p.name));
        assert(j >= k);
        if j > k {
            assert(name_less(s[k].name, s[j].name));
            assert(name_less(s[k].name, p.name));
        }
    }
    if name != p.name {
        known_names(s, name);
        known_names(t, name);
        if preset_models(s, name) is Some {
            let j = choose|j: int| 0 <= j < s.len() && preset_names(s)[j] == name;
            assert(s.contains(s[j]));
            assert(t.contains(s[j]));
            let l = choose|l: int| 0 <= l < t.len() && t[l] == s[j];
            lemma_found_by_name(t, l);
            lemma_found_by_name(s, j);
        } else if preset_models(t, name) is Some {
            let l = choose|l: int| 0 <= l < t.len() && preset_names(t)[l] == name;
            if l < k {
                assert(t[l] == s[l]);
                assert(preset_names(s)[l] == name);
            } else if l > k {
                if k < s.len() && s[k].name == p.name {
                    assert(preset_names(s)[l] == name);
                } else {
                    assert(t[l] == s[l - 1]);
                    assert(preset_names(s)[l - 1] == name);
                }
            } else {
                assert(t[k] == p);
            }
        }
    }
}

} // verus!
