//! The widget registry: a table from type identifier to registration, and a
//! case-insensitive table from name to type identifier.
//!
//! Two registrations of different types whose names are equal once lowercased
//! make that name ambiguous: it is recorded, and a lookup by that name returns
//! the registration made last.
use vstd::prelude::*;
use crate::markup::str_is;

verus! {

/// The lowercase form of a string, as `str::to_lowercase` gives it.
pub uninterp spec fn lower_of(s: Seq<char>) -> Seq<char>;

/// Relies on str::to_lowercase: the result depends on the characters alone.
#[verifier::external_body]
fn lowercase(s: &str) -> (r: String)
    ensures
        r@ == lower_of(s@),
{
    s.to_lowercase()
}

/// A registered widget: its name, the identifier of its type, and the factory
/// that spawns it.
#[derive(Debug)]
pub struct WidgetRegistration<W> {
    pub name: String,
    pub type_id: u64,
    pub widget: W,
}

impl<W> WidgetRegistration<W> {
    pub fn of(name: String, type_id: u64, widget: W) -> (r: Self)
        ensures
            r.name@ == name@,
            r.type_id == type_id,
            r.widget == widget,
    {
        WidgetRegistration { name, type_id, widget }
    }

    pub fn name(&self) -> (r: &String)
        ensures
            r@ == self.name@,
    {
        &self.name
    }

    pub fn type_id(&self) -> (r: u64)
        ensures
            r == self.type_id,
    {
        self.type_id
    }

    pub fn widget(&self) -> (r: &W)
        ensures
            *r == self.widget,
    {
        &self.widget
    }
}

/// Registrations by type identifier, type identifiers by lowercased name, and
/// the names found ambiguous.
#[derive(Debug)]
pub struct WidgetRegistry<W> {
    registrations: Vec<WidgetRegistration<W>>,
    name_to_id: Vec<(String, u64)>,
    ambiguous_names: Vec<String>,
}

/// The registrations of a list, by type identifier; a later entry wins.
pub open spec fn reg_map<W>(v: Seq<WidgetRegistration<W>>) -> Map<u64, WidgetRegistration<W>>
    decreases v.len(),
{
    if v.len() == 0 {
        Map::empty()
    } else {
        reg_map(v.drop_last()).insert(v.last().type_id, v.last())
    }
}

/// The type identifiers of a list, by name; a later entry wins.
pub open spec fn id_map(v: Seq<(String, u64)>) -> Map<Seq<char>, u64>
    decreases v.len(),
{
    if v.len() == 0 {
        Map::empty()
    } else {
        id_map(v.drop_last()).insert(v.last().0@, v.last().1)
    }
}

proof fn lemma_reg_map_update<W>(v: Seq<WidgetRegistration<W>>, j: int, x: WidgetRegistration<W>)
    requires
        forall|a: int, b: int| 0 <= a < b < v.len() ==> v[a].type_id != v[b].type_id,
        0 <= j < v.len(),
        x.type_id == v[j].type_id,
    ensures
        reg_map(v.update(j, x)) == reg_map(v).insert(x.type_id, x),
    decreases v.len(),
{
    let w = v.update(j, x);
    if j == v.len() - 1 {
        assert(w.drop_last() =~= v.drop_last());
        assert(reg_map(w) =~= reg_map(v).insert(x.type_id, x));
    } else {
        assert(w.drop_last() =~= v.drop_last().update(j, x));
        lemma_reg_map_update(v.drop_last(), j, x);
        assert(reg_map(w) =~= reg_map(v).insert(x.type_id, x));
    }
}

proof fn lemma_id_map_update(v: Seq<(String, u64)>, j: int, x: (String, u64))
    requires
        forall|a: int, b: int| 0 <= a < b < v.len() ==> v[a].0@ != v[b].0@,
        0 <= j < v.len(),
        x.0@ == v[j].0@,
    ensures
        id_map(v.update(j, x)) == id_map(v).insert(x.0@, x.1),
    decreases v.len(),
{
    let w = v.update(j, x);
    if j == v.len() - 1 {
        assert(w.drop_last() =~= v.drop_last());
        assert(id_map(w) =~= id_map(v).insert(x.0@, x.1));
    } else {
        assert(w.drop_last() =~= v.drop_last().update(j, x));
        lemma_id_map_update(v.drop_last(), j, x);
        assert(id_map(w) =~= id_map(v).insert(x.0@, x.1));
    }
}

proof fn lemma_reg_map_has<W>(v: Seq<WidgetRegistration<W>>, j: int)
    requires
        0 <= j < v.len(),
        forall|a: int, b: int| 0 <= a < b < v.len() ==> v[a].type_id != v[b].type_id,
    ensures
        reg_map(v).contains_key(v[j].type_id),
        reg_map(v)[v[j].type_id] == v[j],
    decreases v.len(),
{
    if j < v.len() - 1 {
        lemma_reg_map_has(v.drop_last(), j);
    }
}

proof fn lemma_reg_map_domain<W>(v: Seq<WidgetRegistration<W>>, k: u64)
    requires
        reg_map(v).contains_key(k),
    ensures
        exists|j: int| 0 <= j < v.len() && #[trigger] v[j].type_id == k,
    decreases v.len(),
{
    if v.last().type_id != k {
        lemma_reg_map_domain(v.drop_last(), k);
        let j = choose|j: int| 0 <= j < v.drop_last().len() && #[trigger] v.drop_last()[j].type_id == k;
        assert(v[j].type_id == k);
    }
}

proof fn lemma_id_map_has(v: Seq<(String, u64)>, j: int)
    requires
        0 <= j < v.len(),
        forall|a: int, b: int| 0 <= a < b < v.len() ==> v[a].0@ != v[b].0@,
    ensures
        id_map(v).contains_key(v[j].0@),
        id_map(v)[v[j].0@] == v[j].1,
    decreases v.len(),
{
    if j < v.len() - 1 {
        lemma_id_map_has(v.drop_last(), j);
    }
}

proof fn lemma_id_map_domain(v: Seq<(String, u64)>, k: Seq<char>)
    requires
        id_map(v).contains_key(k),
    ensures
        exists|j: int| 0 <= j < v.len() && #[trigger] v[j].0@ == k,
    decreases v.len(),
{
    if v.last().0@ != k {
        lemma_id_map_domain(v.drop_last(), k);
        let j = choose|j: int| 0 <= j < v.drop_last().len() && #[trigger] v.drop_last()[j].0@ == k;
        assert(v[j].0@ == k);
    }
}

/// After a registration, a name is ambiguous exactly when two registered
/// types share it.
proof fn lemma_ambiguity_kept<W>(
    before: WidgetRegistry<W>,
    after: WidgetRegistry<W>,
    registration: WidgetRegistration<W>,
)
    requires
        before.wf(),
        before.registrations().contains_key(registration.type_id) ==> before.registrations()[registration.type_id].name@
            == registration.name@,
        after.registrations() == before.registrations().insert(registration.type_id, registration),
        after.names() == before.names().insert(lower_of(registration.name@), registration.type_id),
        forall|k: Seq<char>|
            #[trigger] after.is_ambiguous(k) <==> before.is_ambiguous(k) || (k == lower_of(
                registration.name@,
            ) && before.names().contains_key(k) && before.names()[k] != registration.type_id),
    ensures
        forall|k: Seq<char>| #[trigger] after.is_ambiguous(k) <==> after.shared(k),
{
    let id = registration.type_id;
    let key = lower_of(registration.name@);
    let ob = before.registrations();
    let nb = after.registrations();
    assert forall|k: Seq<char>| #[trigger] after.is_ambiguous(k) <==> after.shared(k) by {
        if after.is_ambiguous(k) {
            if before.is_ambiguous(k) {
                assert(before.shared(k));
                let (x, y) = choose|x: u64, y: u64|
                    #![auto]
                    ob.contains_key(x) && ob.contains_key(y) && x != y && lower_of(ob[x].name@) == k
                        && lower_of(ob[y].name@) == k;
                assert(nb.contains_key(x) && nb.contains_key(y));
                assert(lower_of(nb[x].name@) == k);
                assert(lower_of(nb[y].name@) == k);
            } else {
                let z = before.names()[key];
                assert(before.names().contains_key(key));
                assert(ob.contains_key(z));
                assert(nb.contains_key(z) && nb.contains_key(id));
                assert(lower_of(nb[z].name@) == k);
                assert(lower_of(nb[id].name@) == k);
            }
        }
        if after.shared(k) {
            let (x, y) = choose|x: u64, y: u64|
                #![auto]
                nb.contains_key(x) && nb.contains_key(y) && x != y && lower_of(nb[x].name@) == k
                    && lower_of(nb[y].name@) == k;
            if x != id && y != id {
                assert(ob.contains_key(x) && ob.contains_key(y));
                assert(before.shared(k));
            } else {
                let other = if x == id { y } else { x };
                assert(ob.contains_key(other));
                assert(lower_of(ob[other].name@) == key);
                if ob.contains_key(id) {
                    assert(lower_of(ob[id].name@) == key);
                    assert(before.shared(k));
                } else {
                    assert(before.names().contains_key(key));
                    let z = before.names()[key];
                    assert(ob.contains_key(z));
                }
            }
        }
    }
}

impl<W> WidgetRegistry<W> {
    /// The registrations, by type identifier.
    pub closed spec fn registrations(&self) -> Map<u64, WidgetRegistration<W>> {
        reg_map(self.registrations@)
    }

    /// The type identifiers, by lowercased name.
    pub closed spec fn names(&self) -> Map<Seq<char>, u64> {
        id_map(self.name_to_id@)
    }

    /// Whether the lowercased name `k` was registered for two types.
    pub closed spec fn is_ambiguous(&self, k: Seq<char>) -> bool {
        exists|i: int| 0 <= i < self.ambiguous_names@.len() && #[trigger] self.ambiguous_names@[i]@ == k
    }

    /// Whether two registered types have names that lowercase to `k`.
    pub open spec fn shared(&self, k: Seq<char>) -> bool {
        exists|x: u64, y: u64|
            #![auto]
            self.registrations().contains_key(x) && self.registrations().contains_key(y) && x != y
                && lower_of(self.registrations()[x].name@) == k && lower_of(
                self.registrations()[y].name@,
            ) == k
    }

    /// Whether a registered type has a name that lowercases to `k`.
    pub open spec fn has_name(&self, k: Seq<char>) -> bool {
        exists|x: u64|
            #![auto]
            self.registrations().contains_key(x) && lower_of(self.registrations()[x].name@) == k
    }

    pub closed spec fn wf(&self) -> bool {
        &&& forall|a: int, b: int|
            0 <= a < b < self.registrations@.len() ==> self.registrations@[a].type_id
                != self.registrations@[b].type_id
        &&& forall|a: int, b: int|
            0 <= a < b < self.name_to_id@.len() ==> self.name_to_id@[a].0@ != self.name_to_id@[b].0@
        &&& forall|k: Seq<char>| #[trigger]
            self.names().contains_key(k) ==> self.registrations().contains_key(self.names()[k])
                && lower_of(self.registrations()[self.names()[k]].name@) == k
        &&& forall|id: u64| #[trigger]
            self.registrations().contains_key(id) ==> self.names().contains_key(
                lower_of(self.registrations()[id].name@),
            )
        &&& forall|k: Seq<char>| #[trigger] self.is_ambiguous(k) <==> self.shared(k)
    }

    /// A registry with no widget.
    pub fn empty() -> (r: Self)
        ensures
            r.wf(),
            r.registrations() == Map::<u64, WidgetRegistration<W>>::empty(),
            r.names() == Map::<Seq<char>, u64>::empty(),
            forall|k: Seq<char>| !r.is_ambiguous(k),
    {
        WidgetRegistry { registrations: Vec::new(), name_to_id: Vec::new(), ambiguous_names: Vec::new() }
    }

    /// A registry that holds the built-in container widget `node`.
    pub fn new(node: WidgetRegistration<W>) -> (r: Self)
        ensures
            r.wf(),
            r.registrations() == map![node.type_id => node],
            r.names() == map![lower_of(node.name@) => node.type_id],
            forall|k: Seq<char>| !r.is_ambiguous(k),
    {
        let mut registry = Self::empty();
        registry.register(node);
        assert(registry.registrations() =~= map![node.type_id => node]);
        assert(registry.names() =~= map![lower_of(node.name@) => node.type_id]);
        registry
    }

    /// Adds a registration. It replaces one of the same type; its lowercased
    /// name now leads to it, and is marked ambiguous if it led to another type.
    pub fn register(&mut self, registration: WidgetRegistration<W>)
        requires
            old(self).wf(),
            old(self).registrations().contains_key(registration.type_id) ==> old(
                self,
            ).registrations()[registration.type_id].name@ == registration.name@,
        ensures
            final(self).wf(),
            final(self).registrations() == old(self).registrations().insert(
                registration.type_id,
                registration,
            ),
            final(self).names() == old(self).names().insert(
                lower_of(registration.name@),
                registration.type_id,
            ),
            forall|k: Seq<char>|
                #[trigger] final(self).is_ambiguous(k) <==> old(self).is_ambiguous(k) || (k
                    == lower_of(registration.name@) && old(self).names().contains_key(k) && old(
                    self,
                ).names()[k] != registration.type_id),
            forall|k: Seq<char>| #[trigger] final(self).is_ambiguous(k) <==> final(self).shared(k),
    {
        let key = lowercase(registration.name.as_str());
        let id = registration.type_id;
        let ghost keyv = key@;
        let ghost old_names = self.names();
        let ghost old_regs = self.registrations();
        // the name table
        let mut i: usize = 0;
        let mut found = false;
        while i < self.name_to_id.len()
            invariant_except_break
                !found,
            invariant
                i <= self.name_to_id@.len(),
                *self == *old(self),
                forall|k: int| 0 <= k < i ==> self.name_to_id@[k].0@ != key@,
            ensures
                *self == *old(self),
                found ==> i < self.name_to_id@.len() && self.name_to_id@[i as int].0@ == key@,
                !found ==> forall|k: int| 0 <= k < self.name_to_id@.len() ==> self.name_to_id@[k].0@ != key@,
            decreases self.name_to_id@.len() - i,
        {
            if str_is(&self.name_to_id[i].0, key.as_str()) {
                found = true;
                break;
            }
            i = i + 1;
        }
        let collided = found && self.name_to_id[i].1 != id;
        proof {
            if found {
                lemma_id_map_has(self.name_to_id@, i as int);
            } else if old_names.contains_key(key@) {
                lemma_id_map_domain(self.name_to_id@, key@);
            }
        }
        assert(collided <==> old_names.contains_key(key@) && old_names[key@] != id);
        if collided {
            let mut a: usize = 0;
            let mut seen = false;
            while a < self.ambiguous_names.len()
                invariant
                    a <= self.ambiguous_names@.len(),
                    !seen ==> forall|k: int| 0 <= k < a ==> self.ambiguous_names@[k]@ != key@,
                    seen ==> self.is_ambiguous(key@),
                decreases self.ambiguous_names@.len() - a,
            {
                if str_is(&self.ambiguous_names[a], key.as_str()) {
                    seen = true;
                }
                a = a + 1;
            }
            if !seen {
                let ghost pre = self.ambiguous_names@;
                self.ambiguous_names.push(key.clone());
                assert(forall|k: int| 0 <= k < pre.len() ==> self.ambiguous_names@[k] == pre[k]);
                assert(self.ambiguous_names@[pre.len() as int]@ == key@);
            }
        }
        // the name table
        if found {
            let ghost pre = self.name_to_id@;
            proof {
                lemma_id_map_update(pre, i as int, (key, id));
            }
            self.name_to_id.set(i, (key, id));
            assert(self.name_to_id@ == pre.update(i as int, (key, id)));
        } else {
            let ghost pre = self.name_to_id@;
            self.name_to_id.push((key, id));
            assert(self.name_to_id@.drop_last() =~= pre);
            assert(forall|k: int| 0 <= k < pre.len() ==> self.name_to_id@[k] == pre[k]);
        }
        // the registrations
        let mut j: usize = 0;
        let mut found_reg = false;
        while j < self.registrations.len()
            invariant_except_break
                !found_reg,
            invariant
                j <= self.registrations@.len(),
                self.registrations@ == old(self).registrations@,
                forall|k: int| 0 <= k < j ==> self.registrations@[k].type_id != id,
            ensures
                self.registrations@ == old(self).registrations@,
                found_reg ==> j < self.registrations@.len() && self.registrations@[j as int].type_id == id,
                !found_reg ==> forall|k: int| 0 <= k < self.registrations@.len() ==> self.registrations@[k].type_id != id,
            decreases self.registrations@.len() - j,
        {
            if self.registrations[j].type_id == id {
                found_reg = true;
                break;
            }
            j = j + 1;
        }
        if found_reg {
            let ghost pre = self.registrations@;
            proof {
                lemma_reg_map_update(pre, j as int, registration);
            }
            self.registrations.set(j, registration);
            assert(self.registrations@ == pre.update(j as int, registration));
        } else {
            let ghost pre = self.registrations@;
            self.registrations.push(registration);
            assert(self.registrations@.drop_last() =~= pre);
            assert(forall|k: int| 0 <= k < pre.len() ==> self.registrations@[k] == pre[k]);
        }
        assert(self.registrations() == old_regs.insert(id, registration));
        assert(self.names() == old_names.insert(keyv, id));
        assert forall|k: Seq<char>| #[trigger] self.names().contains_key(k) implies self.registrations().contains_key(
            self.names()[k],
        ) && lower_of(self.registrations()[self.names()[k]].name@) == k by {
            if k != keyv {
                assert(old_names.contains_key(k));
            }
        }
        assert forall|x: u64| #[trigger] self.registrations().contains_key(x) implies self.names().contains_key(
            lower_of(self.registrations()[x].name@),
        ) by {
            if x != id {
                assert(old_regs.contains_key(x));
            }
        }
        let ghost amb = self.ambiguous_names@;
        assert forall|k: Seq<char>| #[trigger] self.is_ambiguous(k) <==> old(self).is_ambiguous(k)
            || (k == keyv && collided) by {
            if old(self).is_ambiguous(k) {
                let j = choose|j: int|
                    0 <= j < old(self).ambiguous_names@.len() && #[trigger] old(self).ambiguous_names@[j]@ == k;
                assert(self.ambiguous_names@[j] == old(self).ambiguous_names@[j]);
            }
            if self.is_ambiguous(k) && !old(self).is_ambiguous(k) {
                let j = choose|j: int|
                    0 <= j < self.ambiguous_names@.len() && #[trigger] self.ambiguous_names@[j]@ == k;
                if j < old(self).ambiguous_names@.len() {
                    assert(old(self).ambiguous_names@[j] == self.ambiguous_names@[j]);
                }
            }
        }
        proof {
            lemma_ambiguity_kept(*old(self), *self, registration);
        }
    }

    /// The registration of a type.
    pub fn get(&self, type_id: u64) -> (r: Option<&WidgetRegistration<W>>)
        requires
            self.wf(),
        ensures
            r is Some <==> self.registrations().contains_key(type_id),
            r matches Some(x) ==> *x == self.registrations()[type_id] && x.type_id == type_id,
    {
        let mut j: usize = 0;
        while j < self.registrations.len()
            invariant
                j <= self.registrations@.len(),
                self.wf(),
                forall|k: int| 0 <= k < j ==> self.registrations@[k].type_id != type_id,
            decreases self.registrations@.len() - j,
        {
            if self.registrations[j].type_id == type_id {
                proof {
                    lemma_reg_map_has(self.registrations@, j as int);
                }
                return Some(&self.registrations[j]);
            }
            j = j + 1;
        }
        proof {
            if self.registrations().contains_key(type_id) {
                lemma_reg_map_domain(self.registrations@, type_id);
            }
        }
        None
    }

    /// The registration that a name leads to, whatever its case.
    pub fn get_with_name(&self, name: &str) -> (r: Option<&WidgetRegistration<W>>)
        requires
            self.wf(),
        ensures
            r is Some <==> self.names().contains_key(lower_of(name@)),
            r is Some <==> self.has_name(lower_of(name@)),
            r matches Some(x) ==> *x == self.registrations()[self.names()[lower_of(name@)]]
                && x.type_id == self.names()[lower_of(name@)] && lower_of(x.name@) == lower_of(name@),
    {
        let key = lowercase(name);
        proof {
            let k = lower_of(name@);
            if self.has_name(k) {
                let x = choose|x: u64|
                    #![auto]
                    self.registrations().contains_key(x) && lower_of(self.registrations()[x].name@) == k;
                assert(self.registrations().contains_key(x));
            }
        }
        self.get_with_lowercase(&key)
    }

    /// The registration that an already lowercased name leads to.
    pub fn get_with_lowercase(&self, key: &String) -> (r: Option<&WidgetRegistration<W>>)
        requires
            self.wf(),
        ensures
            r is Some <==> self.names().contains_key(key@),
            r matches Some(x) ==> *x == self.registrations()[self.names()[key@]] && x.type_id
                == self.names()[key@],
    {
        let mut i: usize = 0;
        while i < self.name_to_id.len()
            invariant
                i <= self.name_to_id@.len(),
                self.wf(),
                forall|k: int| 0 <= k < i ==> self.name_to_id@[k].0@ != key@,
            decreases self.name_to_id@.len() - i,
        {
            if str_is(&self.name_to_id[i].0, key.as_str()) {
                proof {
                    lemma_id_map_has(self.name_to_id@, i as int);
                }
                return self.get(self.name_to_id[i].1);
            }
            i = i + 1;
        }
        proof {
            if self.names().contains_key(key@) {
                lemma_id_map_domain(self.name_to_id@, key@);
            }
        }
        None
    }
}

} // verus!

verus! {

/// Lookup by name ignores case: after a widget is registered, any name with
/// the same lowercase form leads to that registration, and two such names
/// lead to the same one. The name is ambiguous exactly when it led to another
/// type before.
pub proof fn lemma_lookup_ignores_case<W>(
    before: WidgetRegistry<W>,
    after: WidgetRegistry<W>,
    registration: WidgetRegistration<W>,
    upper: Seq<char>,
    lower: Seq<char>,
)
    requires
        after.wf(),
        after.registrations() == before.registrations().insert(registration.type_id, registration),
        after.names() == before.names().insert(lower_of(registration.name@), registration.type_id),
        forall|k: Seq<char>|
            #[trigger] after.is_ambiguous(k) <==> before.is_ambiguous(k) || (k == lower_of(
                registration.name@,
            ) && before.names().contains_key(k) && before.names()[k] != registration.type_id),
        lower_of(upper) == lower_of(registration.name@),
        lower_of(lower) == lower_of(registration.name@),
    ensures
        after.names().contains_key(lower_of(upper)),
        after.names().contains_key(lower_of(lower)),
        after.registrations()[after.names()[lower_of(upper)]] == registration,
        after.registrations()[after.names()[lower_of(lower)]] == registration,
        after.is_ambiguous(lower_of(upper)) <==> before.is_ambiguous(lower_of(upper)) || (
        before.names().contains_key(lower_of(upper)) && before.names()[lower_of(upper)]
            != registration.type_id),
{
}

} // verus!

verus! {

/// Registering a widget whose lowercased name no other registered type has
/// marks no name ambiguous, and a lookup of that name leads to it.
pub proof fn lemma_register_unique_name<W>(
    before: WidgetRegistry<W>,
    after: WidgetRegistry<W>,
    registration: WidgetRegistration<W>,
)
    requires
        before.wf(),
        after.wf(),
        after.registrations() == before.registrations().insert(registration.type_id, registration),
        after.names() == before.names().insert(lower_of(registration.name@), registration.type_id),
        forall|k: Seq<char>|
            #[trigger] after.is_ambiguous(k) <==> before.is_ambiguous(k) || (k == lower_of(
                registration.name@,
            ) && before.names().contains_key(k) && before.names()[k] != registration.type_id),
        forall|x: u64|
            #[trigger] before.registrations().contains_key(x) && x != registration.type_id ==> lower_of(
                before.registrations()[x].name@,
            ) != lower_of(registration.name@),
    ensures
        forall|k: Seq<char>| #[trigger] after.is_ambiguous(k) == before.is_ambiguous(k),
        after.registrations()[after.names()[lower_of(registration.name@)]] == registration,
{
    let key = lower_of(registration.name@);
    if before.names().contains_key(key) && before.names()[key] != registration.type_id {
        let x = before.names()[key];
        assert(before.registrations().contains_key(x));
    }
}

} // verus!
