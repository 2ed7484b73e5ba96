//! Registry of all tracked applications.
use vstd::prelude::*;

use crate::assoc::{lemma_take_contains, without_key, Assoc};
use crate::state::app_entry::{ids_without, lemma_ids_without, AppEntry, AppId, AppModel};
use crate::text::ascii_lowercase;

verus! {

/// What a registry holds.
pub ghost struct RegistryModel {
    /// The tracked applications, by key.
    pub apps: Map<Seq<char>, AppModel>,
    /// The keys, in the order in which the applications were tracked.
    pub order: Seq<Seq<char>>,
}

/// Registry of all tracked applications.
#[derive(Debug)]
pub struct AppRegistry {
    apps: Assoc<AppEntry>,
}

impl View for AppRegistry {
    type V = RegistryModel;

    closed spec fn view(&self) -> RegistryModel {
        RegistryModel {
            apps: self.apps@.map_values(|e: AppEntry| e@),
            order: self.apps.keys(),
        }
    }
}

impl RegistryModel {
    /// With one application replaced.
    pub open spec fn with_app(self, key: Seq<char>, app: AppModel) -> RegistryModel {
        RegistryModel { apps: self.apps.insert(key, app), ..self }
    }

    /// Keys and order agree, and each application is filed under its own name.
    pub open spec fn sound(self) -> bool {
        &&& self.order.no_duplicates()
        &&& forall|k: Seq<char>| #[trigger] self.apps.contains_key(k) <==> self.order.contains(k)
        &&& forall|k: Seq<char>| #[trigger]
            self.apps.contains_key(k) ==> ascii_lowercase(self.apps[k].name) == k
    }

    /// The last of `keys` whose application has no window but `window_id`.
    pub open spec fn closing_among(self, keys: Seq<Seq<char>>, window_id: u64) -> Option<Seq<char>>
        decreases keys.len(),
    {
        if keys.len() == 0 {
            None
        } else if self.apps[keys.last()].window_ids == seq![window_id] {
            Some(keys.last())
        } else {
            self.closing_among(keys.drop_last(), window_id)
        }
    }

    /// The application that loses its last window with `window_id`: the one that
    /// has no other. Where a window was seen under two names, the application
    /// that was tracked later counts.
    pub open spec fn closing(self, window_id: u64) -> Option<Seq<char>> {
        self.closing_among(self.order, window_id)
    }

    /// After a window closed: no application has it, and the one that had no
    /// other is gone.
    pub open spec fn without_window(self, window_id: u64) -> RegistryModel {
        let apps = self.apps.map_values(|a: AppModel| a.without_window(window_id));
        match self.closing(window_id) {
            Some(key) => RegistryModel {
                apps: apps.remove(key),
                order: without_key(self.order, key),
            },
            None => RegistryModel { apps, order: self.order },
        }
    }
}

proof fn lemma_closing_among(m: RegistryModel, keys: Seq<Seq<char>>, window_id: u64)
    ensures
        match m.closing_among(keys, window_id) {
            Some(k) => keys.contains(k) && m.apps[k].window_ids == seq![window_id],
            None => forall|k: Seq<char>| #[trigger]
                keys.contains(k) ==> m.apps[k].window_ids != seq![window_id],
        },
    decreases keys.len(),
{
    if keys.len() > 0 {
        let before = keys.drop_last();
        lemma_closing_among(m, before, window_id);
        assert(keys =~= before.push(keys.last()));
        assert forall|k: Seq<char>| #[trigger]
            keys.contains(k) <==> before.contains(k) || k == keys.last() by {
            vstd::seq_lib::lemma_seq_contains_after_push(before, keys.last(), k);
        }
    }
}

/// An application leaves with its last window, and with no other: closing a window
/// takes a tracked application that has this window alone, wherever there is one.
/// Afterwards no application has the window.
pub proof fn application_leaves_with_its_last_window(m: RegistryModel, window_id: u64)
    requires
        m.sound(),
    ensures
        match m.closing(window_id) {
            Some(k) => {
                &&& m.apps.contains_key(k)
                &&& m.apps[k].window_ids == seq![window_id]
                &&& !m.without_window(window_id).apps.contains_key(k)
            },
            None => {
                &&& forall|k: Seq<char>| #[trigger]
                    m.apps.contains_key(k) ==> m.apps[k].window_ids != seq![window_id]
                &&& m.without_window(window_id).apps.dom() == m.apps.dom()
            },
        },
        forall|k: Seq<char>| #[trigger]
            m.without_window(window_id).apps.contains_key(k)
                ==> !m.without_window(window_id).apps[k].window_ids.contains(window_id),
{
    lemma_closing_among(m, m.order, window_id);
    let r = m.without_window(window_id);
    assert forall|k: Seq<char>| #[trigger] r.apps.contains_key(k) implies !r.apps[k]
        .window_ids.contains(window_id) by {
        let ids = m.apps[k].window_ids;
        assert(r.apps[k].window_ids == ids_without(ids, window_id));
        lemma_ids_without(ids, window_id);
    }
    if m.closing(window_id) is None {
        assert(r.apps.dom() =~= m.apps.dom());
    }
}

/// Of a window that one application has, closing it takes this application where
/// it has no other window, and none where it has.
pub proof fn closing_takes_the_owner(m: RegistryModel, window_id: u64, k: Seq<char>)
    requires
        m.sound(),
        m.apps.contains_key(k),
        m.apps[k].window_ids.contains(window_id),
        forall|other: Seq<char>| #[trigger]
            m.apps.contains_key(other) && other != k ==> !m.apps[other].window_ids.contains(
                window_id,
            ),
    ensures
        m.closing(window_id) == (if m.apps[k].window_ids == seq![window_id] {
            Some(k)
        } else {
            None
        }),
{
    lemma_closing_among(m, m.order, window_id);
    match m.closing(window_id) {
        Some(other) => {
            assert(m.apps.contains_key(other));
            assert(m.apps[other].window_ids[0] == window_id);
        },
        None => {
            assert(m.order.contains(k));
        },
    }
}

impl AppRegistry {
    /// Well-formedness of the entries and of the key map.
    pub closed spec fn wf(&self) -> bool {
        &&& self.apps.wf()
        &&& forall|k: Seq<char>| #[trigger]
            self.apps@.contains_key(k) ==> self.apps@[k].wf() && ascii_lowercase(
                self.apps@[k]@.name,
            ) == k
    }

    /// The keys and their order agree.
    pub proof fn lemma_sound(&self)
        requires
            self.wf(),
        ensures
            self@.sound(),
            self@.apps.dom().finite(),
            self@.apps.dom().len() == self@.order.len(),
    {
        self.apps.lemma_keys();
        assert(self@.apps.dom() =~= self.apps@.dom());
        assert forall|k: Seq<char>| #[trigger]
            self@.apps.contains_key(k) <==> self@.order.contains(k) by {
            assert(self.apps@.contains_key(k) <==> self.apps.keys().contains(k));
        }
        assert forall|k: Seq<char>| #[trigger] self@.apps.contains_key(k) implies ascii_lowercase(
            self@.apps[k].name,
        ) == k by {
            assert(self.apps@.contains_key(k));
        }
    }

    /// A registry that tracks nothing.
    pub fn new() -> (r: Self)
        ensures
            r.wf(),
            r@.apps == Map::<Seq<char>, AppModel>::empty(),
            r@.order == Seq::<Seq<char>>::empty(),
    {
        let r = AppRegistry { apps: Assoc::new() };
        proof {
            assert(r@.apps =~= Map::empty());
        }
        r
    }

    /// Get app by key.
    pub fn get(&self, key: &str) -> (r: Option<&AppEntry>)
        requires
            self.wf(),
        ensures
            match r {
                Some(e) => self@.apps.contains_key(key@) && e@ == self@.apps[key@] && e.wf(),
                None => !self@.apps.contains_key(key@),
            },
    {
        self.apps.get(key)
    }

    /// Get mutable app by key.
    pub fn get_mut(&mut self, key: &str) -> (r: Option<&mut AppEntry>)
        requires
            old(self).wf(),
        ensures
            match r {
                Some(e) => {
                    &&& old(self)@.apps.contains_key(key@)
                    &&& e@ == old(self)@.apps[key@]
                    &&& e.wf()
                    &&& ascii_lowercase(e@.name) == key@
                    &&& final(self)@ == old(self)@.with_app(key@, final(e)@)
                    &&& (final(e).wf() && ascii_lowercase(final(e)@.name) == key@)
                        ==> final(self).wf()
                },
                None => {
                    &&& !old(self)@.apps.contains_key(key@)
                    &&& *final(self) == *old(self)
                },
            },
    {
        let ghost before = self.apps@;
        match self.apps.get_mut(key) {
            Some(e) => {
                proof {
                    assert(before.insert(key@, *final(e)).map_values(|e: AppEntry| e@)
                        =~= before.map_values(|e: AppEntry| e@).insert(key@, final(e)@));
                }
                Some(e)
            },
            None => None,
        }
    }

    /// The key at position `i`.
    pub fn key_at(&self, i: usize) -> (r: &String)
        requires
            i < self@.order.len(),
        ensures
            r@ == self@.order[i as int],
    {
        self.apps.key_at(i)
    }

    /// The entry at position `i`.
    pub fn entry_at(&self, i: usize) -> (r: &AppEntry)
        requires
            self.wf(),
            i < self@.order.len(),
        ensures
            self@.apps.contains_key(self@.order[i as int]),
            r@ == self@.apps[self@.order[i as int]],
            r.wf(),
    {
        self.apps.value_at(i)
    }

    /// The keys, in the order in which the applications were tracked.
    pub fn keys(&self) -> (r: Vec<String>)
        ensures
            r@.map_values(|s: String| s@) == self@.order,
    {
        let mut out: Vec<String> = Vec::new();
        let mut i: usize = 0;
        proof {
            assert(out@.map_values(|s: String| s@) =~= self@.order.take(0));
        }
        while i < self.apps.len()
            invariant
                i <= self@.order.len(),
                out@.map_values(|s: String| s@) == self@.order.take(i as int),
            decreases self@.order.len() - i,
        {
            let ghost before = out@;
            out.push(self.apps.key_at(i).clone());
            i = i + 1;
            proof {
                assert(self@.order.take(i as int) =~= self@.order.take(i - 1).push(
                    self@.order[i - 1],
                ));
                assert(out@.map_values(|s: String| s@) =~= before.map_values(|s: String| s@).push(
                    self@.order[i - 1],
                ));
            }
        }
        proof {
            assert(self@.order.take(self@.order.len() as int) =~= self@.order);
        }
        out
    }

    /// Insert or update an app entry. Returns its id.
    pub fn insert(&mut self, entry: AppEntry) -> (r: AppId)
        requires
            old(self).wf(),
            entry.wf(),
        ensures
            final(self).wf(),
            r@ == entry@.name,
            final(self)@ == (RegistryModel {
                apps: old(self)@.apps.insert(ascii_lowercase(entry@.name), entry@),
                order: if old(self)@.apps.contains_key(ascii_lowercase(entry@.name)) {
                    old(self)@.order
                } else {
                    old(self)@.order.push(ascii_lowercase(entry@.name))
                },
            }),
    {
        let id = entry.app_id().copy();
        let key = id.key().to_owned();
        let ghost k = key@;
        let ghost apps0 = self.apps@;
        let ghost e = entry;
        self.apps.insert(key, entry);
        proof {
            assert(apps0.insert(k, e).map_values(|e: AppEntry| e@) =~= apps0.map_values(
                |e: AppEntry| e@,
            ).insert(k, e@));
        }
        id
    }

    /// The key of the application that loses its last window with `window_id`.
    pub fn closing_key(&self, window_id: u64) -> (r: Option<&String>)
        requires
            self.wf(),
        ensures
            match r {
                Some(key) => self@.closing(window_id) == Some(key@),
                None => self@.closing(window_id) is None,
            },
    {
        let ghost order = self@.order;
        let mut i: usize = self.apps.len();
        proof {
            assert(order.take(i as int) =~= order);
        }
        while i > 0
            invariant
                i <= order.len(),
                order == self@.order,
                self.wf(),
                self@.closing(window_id) == self@.closing_among(order.take(i as int), window_id),
            decreases i,
        {
            proof {
                assert(order.take(i as int).drop_last() =~= order.take(i - 1));
            }
            i = i - 1;
            if self.entry_at(i).closes_with(window_id) {
                return Some(self.key_at(i));
            }
        }
        None
    }

    /// Takes a window from every application that has it.
    fn drop_window(&mut self, window_id: u64)
        requires
            old(self).wf(),
        ensures
            final(self).wf(),
            final(self)@.order == old(self)@.order,
            final(self)@.apps == old(self)@.apps.map_values(
                |a: AppModel| a.without_window(window_id),
            ),
    {
        let ghost m0 = self@;
        let keys = self.keys();
        let ghost order = m0.order;
        let mut i: usize = 0;
        proof {
            self.lemma_sound();
        }
        while i < keys.len()
            invariant
                i <= keys@.len(),
                self.wf(),
                order == m0.order,
                m0.sound(),
                keys@.map_values(|s: String| s@) == order,
                self@.order == order,
                self@.apps.dom() == m0.apps.dom(),
                forall|k: Seq<char>| #[trigger]
                    m0.apps.contains_key(k) ==> self@.apps[k] == (if order.take(
                        i as int,
                    ).contains(k) {
                        m0.apps[k].without_window(window_id)
                    } else {
                        m0.apps[k]
                    }),
            decreases keys@.len() - i,
        {
            let ghost key = order[i as int];
            proof {
                lemma_take_contains(order, i as int);
                assert(keys@[i as int]@ == key);
                assert(order.contains(key));
                assert(!order.take(i as int).contains(key)) by {
                    if order.take(i as int).contains(key) {
                        let j = choose|j: int| 0 <= j < i && order.take(i as int)[j] == key;
                        assert(order[j] == order[i as int]);
                    }
                }
            }
            match self.get_mut(&keys[i]) {
                Some(entry) => {
                    let _ = entry.remove_window(window_id);
                },
                None => {},
            }
            proof {
                assert(self@.apps.dom() =~= m0.apps.dom());
            }
            i = i + 1;
        }
        proof {
            assert(order.take(order.len() as int) =~= order);
            assert(self@.apps =~= m0.apps.map_values(|a: AppModel| a.without_window(window_id)));
        }
    }

    /// Remove a window. If the app has no more windows, remove the app and
    /// return it.
    pub fn remove_window(&mut self, window_id: u64) -> (r: Option<AppEntry>)
        requires
            old(self).wf(),
        ensures
            final(self).wf(),
            final(self)@ == old(self)@.without_window(window_id),
            match old(self)@.closing(window_id) {
                Some(key) => {
                    &&& r is Some
                    &&& r->0@ == old(self)@.apps[key].without_window(window_id)
                    &&& r->0.wf()
                },
                None => r is None,
            },
    {
        let ghost m0 = self@;
        let closing = match self.closing_key(window_id) {
            Some(key) => Some(key.clone()),
            None => None,
        };
        proof {
            self.lemma_sound();
            lemma_closing_among(m0, m0.order, window_id);
        }
        self.drop_window(window_id);
        match closing {
            Some(key) => self.remove_entry(&key),
            None => None,
        }
    }

    fn remove_entry(&mut self, key: &str) -> (r: Option<AppEntry>)
        requires
            old(self).wf(),
        ensures
            final(self).wf(),
            final(self)@.apps == old(self)@.apps.remove(key@),
            final(self)@.order == without_key(old(self)@.order, key@),
            match r {
                Some(e) => old(self)@.apps.contains_key(key@) && e@ == old(self)@.apps[key@]
                    && e.wf(),
                None => !old(self)@.apps.contains_key(key@),
            },
    {
        let ghost apps0 = self.apps@;
        let r = self.apps.remove(key);
        proof {
            assert(self@.apps =~= apps0.map_values(|e: AppEntry| e@).remove(key@));
        }
        r
    }

    /// Remove an application and its windows.
    pub fn remove_app(&mut self, key: &str) -> (r: Option<AppEntry>)
        requires
            old(self).wf(),
        ensures
            final(self).wf(),
            match r {
                Some(e) => {
                    &&& old(self)@.apps.contains_key(key@)
                    &&& e@ == old(self)@.apps[key@]
                    &&& final(self)@ == (RegistryModel {
                        apps: old(self)@.apps.remove(key@),
                        order: without_key(old(self)@.order, key@),
                    })
                },
                None => !old(self)@.apps.contains_key(key@) && final(self)@ == old(self)@,
            },
    {
        if !self.apps.contains_key(key) {
            return None;
        }
        self.remove_entry(key)
    }

    /// Number of tracked apps.
    pub fn len(&self) -> (r: usize)
        ensures
            r == self@.order.len(),
    {
        self.apps.len()
    }

    pub fn is_empty(&self) -> (r: bool)
        ensures
            r == (self@.order.len() == 0),
    {
        self.apps.len() == 0
    }
}

impl Default for AppRegistry {
    fn default() -> (r: Self)
        ensures
            r.wf(),
            r@.apps == Map::<Seq<char>, AppModel>::empty(),
            r@.order == Seq::<Seq<char>>::empty(),
    {
        AppRegistry::new()
    }
}

/// Closing a window leaves every application that stays as it was, but for this
/// window; and it leaves the order of the others.
pub proof fn closing_a_window_keeps_the_rest(
    m: RegistryModel,
    window_id: u64,
    k: Seq<char>,
    other: u64,
)
    requires
        m.apps.contains_key(k),
        m.closing(window_id) != Some(k),
    ensures
        ({
            let r = m.without_window(window_id);
            &&& r.apps.contains_key(k)
            &&& r.apps[k] == (AppModel { window_ids: r.apps[k].window_ids, ..m.apps[k] })
            &&& r.apps[k].window_ids.contains(other) <==> m.apps[k].window_ids.contains(other)
                && other != window_id
            &&& m.closing(window_id) is None ==> r.order == m.order
        }),
{
    crate::state::app_entry::forgetting_a_window_keeps_the_others(m.apps[k], window_id, other);
}

} // verus!
