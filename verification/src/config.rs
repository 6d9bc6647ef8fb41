//! The widget's persisted configuration: the symbols it watches, the names
//! it has learned for them, the window's place and size, and its opacity.

use vstd::prelude::*;

use crate::text::{
    all_ascii, ascii_lower, ascii_upper, chars_of, str_to_uppercase, string_from_chars, to_uppercase,
    trim, trim_chars,
};

verus! {

/// The window's position and size on the screen.
#[derive(Debug, Clone, Copy, PartialEq, Eq, Structural)]
pub struct WindowState {
    pub x: i32,
    pub y: i32,
    pub width: u32,
    pub height: u32,
}

impl Default for WindowState {
    fn default() -> (res: Self)
        ensures
            res == (WindowState { x: 100, y: 100, width: 340, height: 120 }),
    {
        WindowState { x: 100, y: 100, width: 340, height: 120 }
    }
}

/// The names learned for symbols: each symbol at most once, with one name.
#[derive(Clone)]
pub struct NameMap {
    entries: Vec<(String, String)>,
    map: Ghost<Map<Seq<char>, Seq<char>>>,
}

impl View for NameMap {
    type V = Map<Seq<char>, Seq<char>>;

    closed spec fn view(&self) -> Map<Seq<char>, Seq<char>> {
        self.map@
    }
}

impl NameMap {
    /// The entries hold each symbol once and are exactly what the view maps.
    pub closed spec fn wf(&self) -> bool {
        &&& forall|i: int, j: int|
            0 <= i < j < self.entries.len() ==> (#[trigger] self.entries@[i]).0@ != (
            #[trigger] self.entries@[j]).0@
        &&& forall|i: int|
            0 <= i < self.entries.len() ==> {
                &&& self.map@.contains_key((#[trigger] self.entries@[i]).0@)
                &&& self.map@[self.entries@[i].0@] == self.entries@[i].1@
            }
        &&& forall|k: Seq<char>|
            #[trigger] self.map@.contains_key(k) ==> exists|i: int|
                0 <= i < self.entries.len() && (#[trigger] self.entries@[i]).0@ == k
    }

    /// A map with no names.
    pub fn new() -> (res: NameMap)
        ensures
            res.wf(),
            res@ == Map::<Seq<char>, Seq<char>>::empty(),
    {
        NameMap { entries: Vec::new(), map: Ghost(Map::empty()) }
    }

    /// The number of symbols with a name.
    pub fn len(&self) -> (res: usize)
        requires
            self.wf(),
        ensures
            res == self@.len(),
    {
        proof {
            self.lemma_len();
        }
        self.entries.len()
    }

    proof fn lemma_len(&self)
        requires
            self.wf(),
        ensures
            self.entries.len() == self@.len(),
            self@.dom().finite(),
    {
        let keys = self.entries@.map_values(|e: (String, String)| e.0@);
        assert(keys.no_duplicates()) by {
            assert forall|i: int, j: int| 0 <= i < keys.len() && 0 <= j < keys.len() && i != j implies keys[i] != keys[j] by {
                if i < j {
                    assert(self.entries@[i].0@ != self.entries@[j].0@);
                } else {
                    assert(self.entries@[j].0@ != self.entries@[i].0@);
                }
            }
        }
        assert(keys.to_set() == self@.dom()) by {
            assert forall|k: Seq<char>| keys.to_set().contains(k) <==> self@.dom().contains(k) by {
                if self@.dom().contains(k) {
                    let i = choose|i: int| 0 <= i < self.entries.len() && (#[trigger] self.entries@[i]).0@ == k;
                    assert(keys[i] == k);
                }
                if keys.to_set().contains(k) {
                    let i = choose|i: int| 0 <= i < keys.len() && keys[i] == k;
                    assert(self.entries@[i].0@ == k);
                }
            }
        }
        keys.unique_seq_to_set();
    }

    /// The index of the entry for `key`, if there is one.
    fn find(&self, key: &String) -> (res: Option<usize>)
        requires
            self.wf(),
        ensures
            match res {
                Some(i) => i < self.entries.len() && self.entries@[i as int].0@ == key@,
                None => !self@.contains_key(key@),
            },
    {
        let mut i: usize = 0;
        while i < self.entries.len()
            invariant
                self.wf(),
                i <= self.entries.len(),
                forall|j: int| 0 <= j < i ==> (#[trigger] self.entries@[j]).0@ != key@,
            decreases self.entries.len() - i,
        {
            if self.entries[i].0 == *key {
                return Some(i);
            }
            i += 1;
        }
        proof {
            if self@.contains_key(key@) {
                let j = choose|j: int| 0 <= j < self.entries.len() && (#[trigger] self.entries@[j]).0@ == key@;
                assert(false);
            }
        }
        None
    }

    /// Whether `key` has a name.
    pub fn contains_key(&self, key: &String) -> (res: bool)
        requires
            self.wf(),
        ensures
            res == self@.contains_key(key@),
    {
        match self.find(key) {
            Some(i) => {
                assert(self@.contains_key(self.entries@[i as int].0@));
                true
            },
            None => false,
        }
    }

    /// The name of `key`, if it has one.
    pub fn get(&self, key: &String) -> (res: Option<&String>)
        requires
            self.wf(),
        ensures
            match res {
                Some(v) => self@.contains_key(key@) && v@ == self@[key@],
                None => !self@.contains_key(key@),
            },
    {
        match self.find(key) {
            Some(i) => {
                assert(self@.contains_key(self.entries@[i as int].0@));
                Some(&self.entries[i].1)
            },
            None => None,
        }
    }

    /// Gives `key` the name `value`, replacing the name it had.
    pub fn insert(&mut self, key: String, value: String)
        requires
            old(self).wf(),
        ensures
            final(self).wf(),
            final(self)@ == old(self)@.insert(key@, value@),
    {
        let ghost m = self.map@.insert(key@, value@);
        match self.find(&key) {
            Some(i) => {
                let ghost old_entries = self.entries@;
                self.entries.set(i, (key, value));
                self.map = Ghost(m);
                assert forall|k: Seq<char>| #[trigger] self.map@.contains_key(k) implies exists|j: int|
                    0 <= j < self.entries.len() && (#[trigger] self.entries@[j]).0@ == k by {
                    if k != self.entries@[i as int].0@ {
                        let j = choose|j: int| 0 <= j < old_entries.len() && (#[trigger] old_entries[j]).0@ == k;
                        assert(self.entries@[j] == old_entries[j]);
                    }
                }
                assert forall|j: int| 0 <= j < self.entries.len() implies {
                    &&& self.map@.contains_key((#[trigger] self.entries@[j]).0@)
                    &&& self.map@[self.entries@[j].0@] == self.entries@[j].1@
                } by {
                    if j != i {
                        assert(self.entries@[j] == old_entries[j]);
                        if j < i {
                            assert(old_entries[j].0@ != old_entries[i as int].0@);
                        } else {
                            assert(old_entries[i as int].0@ != old_entries[j].0@);
                        }
                    }
                }
            },
            None => {
                let ghost old_entries = self.entries@;
                self.entries.push((key, value));
                self.map = Ghost(m);
                let ghost n = old_entries.len() as int;
                assert forall|k: Seq<char>| #[trigger] self.map@.contains_key(k) implies exists|j: int|
                    0 <= j < self.entries.len() && (#[trigger] self.entries@[j]).0@ == k by {
                    if k != self.entries@[n].0@ {
                        let j = choose|j: int| 0 <= j < old_entries.len() && (#[trigger] old_entries[j]).0@ == k;
                        assert(self.entries@[j] == old_entries[j]);
                    }
                }
                assert forall|j: int| 0 <= j < self.entries.len() implies {
                    &&& self.map@.contains_key((#[trigger] self.entries@[j]).0@)
                    &&& self.map@[self.entries@[j].0@] == self.entries@[j].1@
                } by {
                    if j != n {
                        assert(self.entries@[j] == old_entries[j]);
                    }
                }
                assert forall|a: int, b: int|
                    0 <= a < b < self.entries.len() implies (#[trigger] self.entries@[a]).0@ != (
                    #[trigger] self.entries@[b]).0@ by {
                    if b == n {
                        assert(self.entries@[a] == old_entries[a]);
                    } else {
                        assert(self.entries@[a] == old_entries[a]);
                        assert(self.entries@[b] == old_entries[b]);
                    }
                }
            },
        }
    }

    /// Takes the name of `key` away, if it had one.
    pub fn remove(&mut self, key: &String)
        requires
            old(self).wf(),
        ensures
            final(self).wf(),
            final(self)@ == old(self)@.remove(key@),
    {
        match self.find(key) {
            Some(i) => {
                let ghost old_entries = self.entries@;
                let ghost m = self.map@.remove(key@);
                self.entries.remove(i);
                self.map = Ghost(m);
                assert forall|k: Seq<char>| #[trigger] self.map@.contains_key(k) implies exists|j: int|
                    0 <= j < self.entries.len() && (#[trigger] self.entries@[j]).0@ == k by {
                    let j = choose|j: int| 0 <= j < old_entries.len() && (#[trigger] old_entries[j]).0@ == k;
                    if j < i {
                        assert(self.entries@[j] == old_entries[j]);
                    } else {
                        assert(j != i);
                        assert(self.entries@[j - 1] == old_entries[j]);
                    }
                }
                assert forall|j: int| 0 <= j < self.entries.len() implies {
                    &&& self.map@.contains_key((#[trigger] self.entries@[j]).0@)
                    &&& self.map@[self.entries@[j].0@] == self.entries@[j].1@
                } by {
                    if j < i {
                        assert(self.entries@[j] == old_entries[j]);
                        assert(old_entries[j].0@ != old_entries[i as int].0@);
                    } else {
                        assert(self.entries@[j] == old_entries[j + 1]);
                        assert(old_entries[i as int].0@ != old_entries[j + 1].0@);
                    }
                }
                assert forall|a: int, b: int|
                    0 <= a < b < self.entries.len() implies (#[trigger] self.entries@[a]).0@ != (
                    #[trigger] self.entries@[b]).0@ by {
                    let oa = if a < i { a } else { a + 1 };
                    let ob = if b < i { b } else { b + 1 };
                    assert(self.entries@[a] == old_entries[oa]);
                    assert(self.entries@[b] == old_entries[ob]);
                }
            },
            None => {
                assert(self.map@.remove(key@) =~= self.map@);
            },
        }
    }

    /// The symbols and their names, each symbol once.
    pub fn pairs(&self) -> (res: Vec<(String, String)>)
        requires
            self.wf(),
        ensures
            forall|i: int, j: int| 0 <= i < j < res.len() ==> (#[trigger] res@[i]).0@ != (#[trigger] res@[j]).0@,
            forall|i: int|
                0 <= i < res.len() ==> self@.contains_key((#[trigger] res@[i]).0@) && self@[res@[i].0@]
                    == res@[i].1@,
            forall|k: Seq<char>|
                #[trigger] self@.contains_key(k) ==> exists|i: int| 0 <= i < res.len() && (#[trigger] res@[i]).0@ == k,
    {
        let mut res: Vec<(String, String)> = Vec::new();
        let mut i: usize = 0;
        while i < self.entries.len()
            invariant
                self.wf(),
                i <= self.entries.len(),
                res.len() == i,
                forall|j: int| 0 <= j < i ==> (#[trigger] res@[j]).0@ == self.entries@[j].0@ && res@[j].1@ == self.entries@[j].1@,
            decreases self.entries.len() - i,
        {
            let k = self.entries[i].0.clone();
            let v = self.entries[i].1.clone();
            res.push((k, v));
            i += 1;
        }
        assert forall|a: int, b: int| 0 <= a < b < res.len() implies (#[trigger] res@[a]).0@ != (#[trigger] res@[b]).0@ by {
            assert(self.entries@[a].0@ != self.entries@[b].0@);
        }
        assert forall|j: int| 0 <= j < res.len() implies self@.contains_key((#[trigger] res@[j]).0@) && self@[res@[j].0@]
            == res@[j].1@ by {
            assert(self.map@.contains_key(self.entries@[j].0@));
        }
        assert forall|k: Seq<char>| #[trigger] self@.contains_key(k) implies exists|j: int| 0 <= j < res.len() && (#[trigger] res@[j]).0@ == k by {
            let j = choose|j: int| 0 <= j < self.entries.len() && (#[trigger] self.entries@[j]).0@ == k;
            assert(res@[j].0@ == k);
        }
        res
    }
}

/// The opacity (out of 255) that a configuration without one gets.
pub fn default_opacity() -> (res: u8)
    ensures
        res == 209,
{
    209
}

/// The symbols watched on first start.
pub open spec fn default_symbols() -> Seq<Seq<char>> {
    seq!["AAPL"@, "GOOGL"@, "MSFT"@, "SPY"@, "QQQ"@]
}

/// A symbol as the configuration keeps it: upper-cased, then trimmed.
pub open spec fn normalize_symbol(s: Seq<char>) -> Seq<char> {
    trim(str_to_uppercase(s))
}

/// The characters of `s`, each put through `ascii_upper`.
pub open spec fn ascii_upper_all(s: Seq<char>) -> Seq<char> {
    s.map_values(|c: char| ascii_upper(c))
}

/// `syms` with `x` added at the end, unless it is there already.
pub open spec fn with_symbol(syms: Seq<Seq<char>>, x: Seq<char>) -> Seq<Seq<char>> {
    if syms.contains(x) {
        syms
    } else {
        syms.push(x)
    }
}

/// `syms` without any occurrence of `x`, the others kept in order.
pub open spec fn without_symbol(syms: Seq<Seq<char>>, x: Seq<char>) -> Seq<Seq<char>>
    decreases syms.len(),
{
    if syms.len() == 0 {
        Seq::<Seq<char>>::empty()
    } else {
        let r = without_symbol(syms.drop_last(), x);
        if syms.last() == x {
            r
        } else {
            r.push(syms.last())
        }
    }
}

/// `names` after learning, in order, each `(symbol, name)` of `found` whose
/// name is not empty and whose symbol has no name yet.
pub open spec fn names_after(
    names: Map<Seq<char>, Seq<char>>,
    found: Seq<(Seq<char>, Seq<char>)>,
) -> Map<Seq<char>, Seq<char>>
    decreases found.len(),
{
    if found.len() == 0 {
        names
    } else {
        let m = names_after(names, found.drop_last());
        let (sym, name) = found.last();
        if name.len() > 0 && !m.contains_key(sym) {
            m.insert(sym, name)
        } else {
            m
        }
    }
}

/// The persisted state of the widget.
#[derive(Clone)]
pub struct AppConfig {
    pub symbols: Vec<String>,
    pub names: NameMap,
    pub window: WindowState,
    pub opacity: u8,
}

impl Default for AppConfig {
    /// Five US tickers, no names, the default window and opacity.
    fn default() -> (res: Self)
        ensures
            res.wf(),
            res.symbols_view() == default_symbols(),
            res.names@ == Map::<Seq<char>, Seq<char>>::empty(),
            res.window == (WindowState { x: 100, y: 100, width: 340, height: 120 }),
            res.opacity == 209,
    {
        let symbols = vec![
            "AAPL".to_owned(),
            "GOOGL".to_owned(),
            "MSFT".to_owned(),
            "SPY".to_owned(),
            "QQQ".to_owned(),
        ];
        let res = AppConfig {
            symbols,
            names: NameMap::new(),
            window: WindowState::default(),
            opacity: default_opacity(),
        };
        assert(res.symbols_view() == default_symbols());
        res
    }
}

impl AppConfig {
    /// The symbols, each as its characters.
    pub open spec fn symbols_view(&self) -> Seq<Seq<char>> {
        self.symbols@.map_values(|s: String| s@)
    }

    /// The names are a well-formed map.
    pub open spec fn wf(&self) -> bool {
        self.names.wf()
    }

    /// The trimmed form of an already upper-cased symbol.
    fn trimmed(upper: &str) -> (res: String)
        ensures
            res@ == trim(upper@),
    {
        let v = chars_of(upper);
        let t = trim_chars(&v);
        string_from_chars(&t)
    }

    /// Starts watching `symbol` (upper-cased and trimmed), at the end of the
    /// list, unless it is watched already.
    pub fn add_symbol(&mut self, symbol: &str)
        requires
            old(self).wf(),
        ensures
            final(self).wf(),
            final(self).symbols_view() == with_symbol(old(self).symbols_view(), normalize_symbol(symbol@)),
            all_ascii(symbol@) ==> final(self).symbols_view() == with_symbol(
                old(self).symbols_view(),
                trim(ascii_upper_all(symbol@)),
            ),
            final(self).names@ == old(self).names@,
            final(self).window == old(self).window,
            final(self).opacity == old(self).opacity,
    {
        let upper = to_uppercase(symbol);
        self.add_uppercased_symbol(upper.as_str());
    }

    /// Starts watching the already upper-cased `upper`, trimmed, at the end
    /// of the list, unless it is watched already.
    pub fn add_uppercased_symbol(&mut self, upper: &str)
        requires
            old(self).wf(),
        ensures
            final(self).wf(),
            final(self).symbols_view() == with_symbol(old(self).symbols_view(), trim(upper@)),
            final(self).names@ == old(self).names@,
            final(self).window == old(self).window,
            final(self).opacity == old(self).opacity,
    {
        let sym = Self::trimmed(upper);
        let ghost syms = self.symbols_view();
        let mut i: usize = 0;
        while i < self.symbols.len()
            invariant
                i <= self.symbols.len(),
                self == old(self),
                self.wf(),
                syms == old(self).symbols_view(),
                sym@ == trim(upper@),
                syms == self.symbols@.map_values(|s: String| s@),
                forall|j: int| 0 <= j < i ==> syms[j] != sym@,
            decreases self.symbols.len() - i,
        {
            if self.symbols[i] == sym {
                assert(syms[i as int] == sym@);
                assert(syms.contains(sym@));
                return;
            }
            i += 1;
        }
        assert(!syms.contains(sym@));
        self.symbols.push(sym);
        assert(self.symbols_view() == syms.push(trim(upper@)));
    }

    /// Stops watching `symbol` (upper-cased and trimmed): every occurrence
    /// leaves the list, the others keep their order, and its name is forgotten.
    pub fn remove_symbol(&mut self, symbol: &str)
        requires
            old(self).wf(),
        ensures
            final(self).wf(),
            final(self).symbols_view() == without_symbol(old(self).symbols_view(), normalize_symbol(symbol@)),
            final(self).names@ == old(self).names@.remove(normalize_symbol(symbol@)),
            final(self).window == old(self).window,
            final(self).opacity == old(self).opacity,
    {
        let upper = to_uppercase(symbol);
        self.remove_uppercased_symbol(upper.as_str());
    }

    /// Stops watching the already upper-cased `upper`, trimmed: every
    /// occurrence leaves the list, the others keep their order, and its name
    /// is forgotten.
    pub fn remove_uppercased_symbol(&mut self, upper: &str)
        requires
            old(self).wf(),
        ensures
            final(self).wf(),
            final(self).symbols_view() == without_symbol(old(self).symbols_view(), trim(upper@)),
            final(self).names@ == old(self).names@.remove(trim(upper@)),
            final(self).window == old(self).window,
            final(self).opacity == old(self).opacity,
    {
        let sym = Self::trimmed(upper);
        self.drop_every(&sym);
        self.names.remove(&sym);
    }

    /// Takes every occurrence of exactly `sym` out of the list, the others
    /// kept in order.
    fn drop_every(&mut self, sym: &String)
        requires
            old(self).wf(),
        ensures
            final(self).wf(),
            final(self).symbols_view() == without_symbol(old(self).symbols_view(), sym@),
            final(self).names@ == old(self).names@,
            final(self).window == old(self).window,
            final(self).opacity == old(self).opacity,
    {
        let ghost syms = self.symbols_view();
        let mut kept: Vec<String> = Vec::new();
        let mut i: usize = 0;
        assert(syms.take(0) == Seq::<Seq<char>>::empty());
        while i < self.symbols.len()
            invariant
                i <= self.symbols.len(),
                syms == self.symbols@.map_values(|s: String| s@),
                kept@.map_values(|s: String| s@) == without_symbol(syms.take(i as int), sym@),
            decreases self.symbols.len() - i,
        {
            assert(syms.take(i + 1).drop_last() == syms.take(i as int));
            assert(syms.take(i + 1).last() == self.symbols@[i as int]@);
            if self.symbols[i] != *sym {
                let s = self.symbols[i].clone();
                let ghost before = kept@;
                kept.push(s);
                assert(kept@.map_values(|s: String| s@) == before.map_values(|s: String| s@).push(
                    syms[i as int],
                ));
            }
            i += 1;
        }
        assert(syms.take(syms.len() as int) == syms);
        self.symbols = kept;
    }

    /// Deletes the stock listed at position `idx`, where there is one: every
    /// occurrence of that listed string leaves the list (the others keep
    /// their order), and the name of its upper-cased, trimmed form is
    /// forgotten. Tells whether there was a stock there.
    pub fn remove_symbol_at(&mut self, idx: usize) -> (res: bool)
        requires
            old(self).wf(),
        ensures
            final(self).wf(),
            res == (idx < old(self).symbols.len()),
            res ==> {
                let listed = old(self).symbols_view()[idx as int];
                &&& final(self).symbols_view() == without_symbol(old(self).symbols_view(), listed)
                &&& final(self).names@ == old(self).names@.remove(normalize_symbol(listed))
            },
            !res ==> final(self).symbols_view() == old(self).symbols_view() && final(self).names@
                == old(self).names@,
            final(self).window == old(self).window,
            final(self).opacity == old(self).opacity,
    {
        if idx >= self.symbols.len() {
            return false;
        }
        let listed = self.symbols[idx].clone();
        let upper = to_uppercase(listed.as_str());
        let normalized = Self::trimmed(upper.as_str());
        self.drop_every(&listed);
        self.names.remove(&normalized);
        true
    }

    /// Learns the names in `found` (symbol, name): a name is kept only where
    /// it is not empty and the symbol has no name yet.
    pub fn record_names(&mut self, found: &Vec<(String, String)>)
        requires
            old(self).wf(),
        ensures
            final(self).wf(),
            final(self).names@ == names_after(
                old(self).names@,
                found@.map_values(|p: (String, String)| (p.0@, p.1@)),
            ),
            final(self).symbols == old(self).symbols,
            final(self).window == old(self).window,
            final(self).opacity == old(self).opacity,
    {
        let ghost f = found@.map_values(|p: (String, String)| (p.0@, p.1@));
        let ghost start = self.names@;
        let mut i: usize = 0;
        assert(f.take(0) == Seq::<(Seq<char>, Seq<char>)>::empty());
        while i < found.len()
            invariant
                i <= found.len(),
                self.wf(),
                f == found@.map_values(|p: (String, String)| (p.0@, p.1@)),
                self.names@ == names_after(start, f.take(i as int)),
                self.symbols == old(self).symbols,
                self.window == old(self).window,
                self.opacity == old(self).opacity,
            decreases found.len() - i,
        {
            assert(f.take(i + 1).drop_last() == f.take(i as int));
            assert(f.take(i + 1).last() == (found@[i as int].0@, found@[i as int].1@));
            let sym = &found[i].0;
            let name = &found[i].1;
            if !name.as_str().is_empty() && !self.names.contains_key(sym) {
                self.names.insert(sym.clone(), name.clone());
            }
            i += 1;
        }
        assert(f.take(found.len() as int) == f);
    }
}

/// Adding a symbol twice watches the same list as adding it once.
pub proof fn law_add_symbol_idempotent(syms: Seq<Seq<char>>, x: Seq<char>)
    ensures
        with_symbol(with_symbol(syms, x), x) == with_symbol(syms, x),
{
    assert(with_symbol(syms, x).contains(x)) by {
        if !syms.contains(x) {
            assert(syms.push(x)[syms.len() as int] == x);
        }
    }
}

/// After a symbol is added it is watched, and the list only grew at its end.
pub proof fn law_added_symbol_is_watched(syms: Seq<Seq<char>>, x: Seq<char>)
    ensures
        with_symbol(syms, x).contains(x),
        with_symbol(syms, x).take(syms.len() as int) == syms,
{
    if !syms.contains(x) {
        assert(syms.push(x)[syms.len() as int] == x);
    }
    assert(with_symbol(syms, x).take(syms.len() as int) =~= syms);
}

/// Adding keeps a list without repeated symbols free of repeats.
pub proof fn law_add_keeps_symbols_distinct(syms: Seq<Seq<char>>, x: Seq<char>)
    requires
        syms.no_duplicates(),
    ensures
        with_symbol(syms, x).no_duplicates(),
{
    if !syms.contains(x) {
        let t = syms.push(x);
        assert forall|i: int, j: int| 0 <= i < t.len() && 0 <= j < t.len() && i != j implies t[i]
            != t[j] by {
            if i == syms.len() {
                assert(syms[j] == t[j]);
            } else if j == syms.len() {
                assert(syms[i] == t[i]);
            }
        }
    }
}

/// After a symbol is removed it is no longer watched, and every other
/// symbol that was watched still is.
pub proof fn law_removed_symbol_is_gone(syms: Seq<Seq<char>>, x: Seq<char>, y: Seq<char>)
    ensures
        without_symbol(syms, x).contains(y) <==> (syms.contains(y) && y != x),
    decreases syms.len(),
{
    if syms.len() > 0 {
        let d = syms.drop_last();
        law_removed_symbol_is_gone(d, x, y);
        let r = without_symbol(d, x);
        if syms.contains(y) && y != x {
            let i = choose|i: int| 0 <= i < syms.len() && syms[i] == y;
            if i < d.len() {
                assert(d[i] == y);
                if syms.last() != x {
                    let k = choose|k: int| 0 <= k < r.len() && r[k] == y;
                    assert(r.push(syms.last())[k] == y);
                }
            } else {
                assert(r.push(syms.last())[r.len() as int] == y);
            }
        }
        if without_symbol(syms, x).contains(y) {
            if syms.last() != x {
                let k = choose|k: int| 0 <= k < r.len() + 1 && r.push(syms.last())[k] == y;
                if k < r.len() {
                    assert(r[k] == y);
                    let i = choose|i: int| 0 <= i < d.len() && d[i] == y;
                    assert(syms[i] == y);
                } else {
                    assert(syms[syms.len() - 1] == y);
                }
            } else {
                let i = choose|i: int| 0 <= i < d.len() && d[i] == y;
                assert(syms[i] == y);
            }
        }
    }
}

proof fn lemma_without_absent(syms: Seq<Seq<char>>, x: Seq<char>)
    requires
        !syms.contains(x),
    ensures
        without_symbol(syms, x) == syms,
    decreases syms.len(),
{
    if syms.len() > 0 {
        let d = syms.drop_last();
        assert(!d.contains(x)) by {
            if d.contains(x) {
                let i = choose|i: int| 0 <= i < d.len() && d[i] == x;
                assert(syms[i] == x);
            }
        }
        lemma_without_absent(d, x);
        assert(syms.last() != x) by {
            if syms.last() == x {
                assert(syms[syms.len() - 1] == x);
            }
        }
        assert(d.push(syms.last()) == syms);
    }
}

/// Removing a symbol that was just added, when it had been neither watched
/// nor named, gives back the list and the names there were before.
pub proof fn law_remove_undoes_add(
    syms: Seq<Seq<char>>,
    names: Map<Seq<char>, Seq<char>>,
    x: Seq<char>,
)
    requires
        !syms.contains(x),
        !names.contains_key(x),
    ensures
        without_symbol(with_symbol(syms, x), x) == syms,
        names.remove(x) == names,
{
    lemma_without_absent(syms, x);
    assert(syms.push(x).drop_last() == syms);
    assert(names.remove(x) =~= names);
}

/// Learning names never changes a name already known, and afterwards every
/// symbol that came with a name has one.
pub proof fn law_learned_names_are_kept(
    names: Map<Seq<char>, Seq<char>>,
    found: Seq<(Seq<char>, Seq<char>)>,
)
    ensures
        forall|k: Seq<char>|
            #[trigger] names.contains_key(k) ==> names_after(names, found).contains_key(k)
                && names_after(names, found)[k] == names[k],
        forall|i: int|
            0 <= i < found.len() && found[i].1.len() > 0 ==> names_after(
                names,
                found,
            ).contains_key(#[trigger] found[i].0),
    decreases found.len(),
{
    if found.len() > 0 {
        let d = found.drop_last();
        law_learned_names_are_kept(names, d);
        let m = names_after(names, d);
        assert forall|i: int|
            0 <= i < found.len() && found[i].1.len() > 0 implies names_after(
            names,
            found,
        ).contains_key(#[trigger] found[i].0) by {
            if i < d.len() {
                assert(d[i] == found[i]);
                assert(m.contains_key(d[i].0));
            }
        }
    }
}

/// For an ASCII symbol, adding it or its lower-case form watches the same
/// list: both are upper-cased the same way.
pub proof fn law_add_symbol_ignores_ascii_case(syms: Seq<Seq<char>>, s: Seq<char>)
    requires
        all_ascii(s),
    ensures
        all_ascii(s.map_values(|c: char| ascii_lower(c))),
        with_symbol(syms, trim(ascii_upper_all(s.map_values(|c: char| ascii_lower(c))))) == with_symbol(
            syms,
            trim(ascii_upper_all(s)),
        ),
{
    let l = s.map_values(|c: char| ascii_lower(c));
    assert forall|i: int| 0 <= i < l.len() implies (#[trigger] l[i]) < '\u{80}' by {
        assert(s[i] < '\u{80}');
    }
    assert(ascii_upper_all(l) =~= ascii_upper_all(s)) by {
        assert forall|i: int| 0 <= i < s.len() implies ascii_upper(#[trigger] l[i]) == ascii_upper(s[i]) by {
            let c = s[i];
            if 'A' <= c <= 'Z' {
                assert(((((c as u8) + 32) as u8 as char) as u8 - 32) as u8 as char == c);
            }
        }
    }
}

} // verus!
