//! The store of loaded locales: each name is loaded once and kept.
//!
//! A store changes through `&mut` only, so a locale is seen by others
//! when it is complete and in its place, never before.

use vstd::prelude::*;
use crate::data_format::DataFormat;
use crate::locale::{load_failure, LoadError, Locale};
use crate::table::StringTable;

verus! {

/// The names of the default and the fallback locale.
#[derive(Debug, Clone)]
pub struct Settings {
    pub default_locale: String,
    pub fallback_locale: String,
}

impl Default for Settings {
    /// `en_US` for both names.
    fn default() -> (settings: Settings)
        ensures
            settings.default_locale@ == "en_US"@,
            settings.fallback_locale@ == "en_US"@,
    {
        Settings {
            default_locale: String::from_str("en_US"),
            fallback_locale: String::from_str("en_US"),
        }
    }
}

/// The locales loaded so far, with the settings and the places where
/// the locale files and scratch files are kept.
///
/// A store that is well formed holds every name once, as a hash map
/// does, and well-formed locales only. The constructors make stores so
/// and every load keeps them so.
pub struct AnLocales {
    pub locales_path: String,
    pub temp_path: String,
    pub settings: Settings,
    pub cache: Vec<Locale>,
}

/// The place of the first locale at or after `from` whose name is `name`.
pub open spec fn cached_from(cache: Seq<Locale>, name: Seq<char>, from: int) -> Option<int>
    decreases cache.len() - from,
{
    if from < 0 || from >= cache.len() {
        None
    } else if cache[from].name@ == name {
        Some(from)
    } else {
        cached_from(cache, name, from + 1)
    }
}

/// No name stands twice.
pub open spec fn distinct_names(cache: Seq<Locale>) -> bool {
    forall|i: int, j: int|
        0 <= i < j < cache.len() ==> #[trigger] cache[i].name@ != #[trigger] cache[j].name@
}

/// The place of the locale `name` in `cache`, where it has been loaded.
pub open spec fn cached_at(cache: Seq<Locale>, name: Seq<char>) -> Option<int> {
    cached_from(cache, name, 0)
}

/// What a load hands out, by value.
pub open spec fn handed_out(handle: Result<&Locale, LoadError>) -> Result<Locale, LoadError> {
    match handle {
        Ok(locale) => Ok(*locale),
        Err(e) => Err(e),
    }
}

/// One load of `name`: `before` becomes `after` and `handle` is handed
/// out, where `source` is what could be had for the name.
///
/// A name that has been loaded is served from the store, which stays
/// as it is, whatever `source` holds. For any other name the locale is
/// made from `source` and put at the end of the store; where `source`
/// is an error the load fails with it, where the parts do not fit the
/// data model it fails with what is wrong with them, and either way the
/// store stays as it is.
pub open spec fn loads(
    before: AnLocales,
    name: Seq<char>,
    source: Result<(DataFormat, StringTable), LoadError>,
    after: AnLocales,
    handle: Result<Locale, LoadError>,
) -> bool {
    match cached_at(before.cache@, name) {
        Some(i) => after == before && handle == Ok::<Locale, LoadError>(before.cache@[i]),
        None => match source {
            Err(e) => after == before && handle == Err::<Locale, LoadError>(e),
            Ok((data, strings)) => match load_failure(data, strings) {
                Some(e) => after == before && handle == Err::<Locale, LoadError>(e),
                None => {
                    &&& handle matches Ok(locale)
                    &&& locale.made_from(name, data, strings)
                    &&& locale.wf()
                    &&& after.cache@ == before.cache@.push(locale)
                    &&& after.locales_path == before.locales_path
                    &&& after.temp_path == before.temp_path
                    &&& after.settings == before.settings
                },
            },
        },
    }
}

/// A name that is not found stands nowhere from the start on.
pub proof fn lemma_cached_absent(cache: Seq<Locale>, name: Seq<char>, from: int)
    requires
        0 <= from,
        cached_from(cache, name, from) is None,
    ensures
        forall|i: int| from <= i < cache.len() ==> #[trigger] cache[i].name@ != name,
    decreases cache.len() - from,
{
    if from < cache.len() {
        lemma_cached_absent(cache, name, from + 1);
    }
}

/// A name that is found is found at a place that holds it.
pub proof fn lemma_cached_found(cache: Seq<Locale>, name: Seq<char>, from: int)
    ensures
        match cached_from(cache, name, from) {
            Some(i) => from <= i < cache.len() && cache[i].name@ == name,
            None => true,
        },
    decreases cache.len() - from,
{
    if 0 <= from < cache.len() && cache[from].name@ != name {
        lemma_cached_found(cache, name, from + 1);
    }
}

/// Where a name is found after one more locale is put at the end.
pub proof fn lemma_cached_pushed(cache: Seq<Locale>, locale: Locale, name: Seq<char>, from: int)
    requires
        0 <= from <= cache.len(),
    ensures
        cached_from(cache.push(locale), name, from) == (if cached_from(cache, name, from) is None
            && name == locale.name@ {
            Some(cache.len() as int)
        } else {
            cached_from(cache, name, from)
        }),
    decreases cache.len() - from,
{
    let longer = cache.push(locale);
    if from < cache.len() {
        assert(longer[from] == cache[from]);
        if cache[from].name@ != name {
            lemma_cached_pushed(cache, locale, name, from + 1);
        }
    } else {
        assert(longer[from] == locale);
        assert(cached_from(longer, name, from + 1) is None);
    }
}

impl AnLocales {
    /// Every name stands once and every locale is well formed.
    pub open spec fn wf(&self) -> bool {
        &&& distinct_names(self.cache@)
        &&& forall|i: int| 0 <= i < self.cache@.len() ==> (#[trigger] self.cache@[i]).wf()
    }

    /// An empty store with `settings` that records no paths.
    pub fn new(settings: Settings) -> (store: AnLocales)
        ensures
            store.wf(),
            store.settings == settings,
            store.cache@.len() == 0,
            store.locales_path@.len() == 0,
            store.temp_path@.len() == 0,
    {
        AnLocales {
            locales_path: String::new(),
            temp_path: String::new(),
            settings,
            cache: Vec::new(),
        }
    }

    /// An empty store with `settings` that records where locale files
    /// and scratch files are kept.
    pub fn new_with_paths(locales_path: String, temp_path: String, settings: Settings) -> (store:
        AnLocales)
        ensures
            store.wf(),
            store.locales_path == locales_path,
            store.temp_path == temp_path,
            store.settings == settings,
            store.cache@.len() == 0,
    {
        AnLocales { locales_path, temp_path, settings, cache: Vec::new() }
    }

    /// The place of the locale `name` in the store.
    pub fn find(&self, name: &str) -> (found: Option<usize>)
        ensures
            match found {
                Some(i) => cached_at(self.cache@, name@) == Some(i as int) && i < self.cache@.len(),
                None => cached_at(self.cache@, name@) is None,
            },
    {
        let wanted = String::from_str(name);
        let mut i: usize = 0;
        while i < self.cache.len()
            invariant
                i <= self.cache.len(),
                wanted@ == name@,
                cached_at(self.cache@, name@) == cached_from(self.cache@, name@, i as int),
            decreases self.cache.len() - i,
        {
            if self.cache[i].name == wanted {
                return Some(i);
            }
            i = i + 1;
        }
        None
    }

    /// The locale `name`, where it has been loaded.
    pub fn get(&self, name: &str) -> (found: Option<&Locale>)
        ensures
            match found {
                Some(locale) => cached_at(self.cache@, name@) is Some && *locale == self.cache@[cached_at(
                    self.cache@,
                    name@,
                )->0],
                None => cached_at(self.cache@, name@) is None,
            },
    {
        match self.find(name) {
            Some(i) => Some(&self.cache[i]),
            None => None,
        }
    }

    /// Serves `name` from the store, or makes it from `source` and
    /// keeps it.
    pub fn install(&mut self, name: &str, source: Result<(DataFormat, StringTable), LoadError>) -> (handle:
        Result<&Locale, LoadError>)
        ensures
            loads(*old(self), name@, source, *final(self), handed_out(handle)),
            old(self).wf() ==> final(self).wf(),
    {
        match self.find(name) {
            Some(i) => Ok(&self.cache[i]),
            None => match source {
                Err(e) => Err(e),
                Ok((data, strings)) => match Locale::load(name, data, strings) {
                    Ok(locale) => {
                        proof {
                            lemma_cached_absent(self.cache@, name@, 0);
                        }
                        self.cache.push(locale);
                        Ok(&self.cache[self.cache.len() - 1])
                    },
                    Err(e) => Err(e),
                },
            },
        }
    }

    /// The locale `name`: from the store where it has been loaded,
    /// otherwise made from what `fetch` supplies for the name, which is
    /// asked only then.
    pub fn load_locale<F>(&mut self, name: &str, fetch: F) -> (handle: Result<&Locale, LoadError>)
        where F: FnOnce(&str) -> Result<(DataFormat, StringTable), LoadError>
        requires
            fetch.requires((name,)),
        ensures
            exists|source: Result<(DataFormat, StringTable), LoadError>|
                {
                    &&& cached_at(old(self).cache@, name@) is None ==> fetch.ensures(
                        (name,),
                        source,
                    )
                    &&& #[trigger] loads(
                        *old(self),
                        name@,
                        source,
                        *final(self),
                        handed_out(handle),
                    )
                },
            old(self).wf() ==> final(self).wf(),
    {
        match self.find(name) {
            Some(i) => {
                assert(loads(
                    *old(self),
                    name@,
                    Err(LoadError::Unavailable),
                    *self,
                    Ok(self.cache@[i as int]),
                ));
                Ok(&self.cache[i])
            },
            None => {
                let source = fetch(name);
                self.install(name, source)
            },
        }
    }

    /// The default locale of the settings, loaded as `load_locale`
    /// loads it.
    pub fn default_locale<F>(&mut self, fetch: F) -> (handle: Result<&Locale, LoadError>)
        where F: FnOnce(&str) -> Result<(DataFormat, StringTable), LoadError>
        requires
            forall|asked: &str|
                asked@ == old(self).settings.default_locale@ ==> fetch.requires((asked,)),
        ensures
            old(self).wf() ==> final(self).wf(),
            exists|asked: &str, source: Result<(DataFormat, StringTable), LoadError>|
                {
                    &&& asked@ == old(self).settings.default_locale@
                    &&& cached_at(old(self).cache@, asked@) is None ==> fetch.ensures(
                        (asked,),
                        source,
                    )
                    &&& #[trigger] loads(
                        *old(self),
                        asked@,
                        source,
                        *final(self),
                        handed_out(handle),
                    )
                },
    {
        let name = self.settings.default_locale.clone();
        self.load_locale(name.as_str(), fetch)
    }

    /// The fallback locale of the settings, loaded as `load_locale`
    /// loads it. Nothing of it is put into another locale: a caller
    /// that misses a key asks this one.
    pub fn fallback_locale<F>(&mut self, fetch: F) -> (handle: Result<&Locale, LoadError>)
        where F: FnOnce(&str) -> Result<(DataFormat, StringTable), LoadError>
        requires
            forall|asked: &str|
                asked@ == old(self).settings.fallback_locale@ ==> fetch.requires((asked,)),
        ensures
            old(self).wf() ==> final(self).wf(),
            exists|asked: &str, source: Result<(DataFormat, StringTable), LoadError>|
                {
                    &&& asked@ == old(self).settings.fallback_locale@
                    &&& cached_at(old(self).cache@, asked@) is None ==> fetch.ensures(
                        (asked,),
                        source,
                    )
                    &&& #[trigger] loads(
                        *old(self),
                        asked@,
                        source,
                        *final(self),
                        handed_out(handle),
                    )
                },
    {
        let name = self.settings.fallback_locale.clone();
        self.load_locale(name.as_str(), fetch)
    }
}

/// A second load of a name hands out the locale of the first and leaves
/// the store as the first load left it, whatever could be had for the
/// name the second time.
pub proof fn lemma_load_is_idempotent(
    first: AnLocales,
    name: Seq<char>,
    source: Result<(DataFormat, StringTable), LoadError>,
    second: AnLocales,
    locale: Locale,
    source_again: Result<(DataFormat, StringTable), LoadError>,
    third: AnLocales,
    handle_again: Result<Locale, LoadError>,
)
    requires
        loads(first, name, source, second, Ok(locale)),
        loads(second, name, source_again, third, handle_again),
    ensures
        third == second,
        handle_again == Ok::<Locale, LoadError>(locale),
{
    lemma_cached_found(first.cache@, name, 0);
    if cached_at(first.cache@, name) is None {
        lemma_cached_pushed(first.cache@, locale, name, 0);
    }
}

/// A load never drops or changes a locale that the store holds: every
/// name that was found before is found after, at the same place and
/// with the same locale.
pub proof fn lemma_load_keeps_loaded(
    before: AnLocales,
    name: Seq<char>,
    source: Result<(DataFormat, StringTable), LoadError>,
    after: AnLocales,
    handle: Result<Locale, LoadError>,
    other: Seq<char>,
)
    requires
        loads(before, name, source, after, handle),
        cached_at(before.cache@, other) is Some,
    ensures
        cached_at(after.cache@, other) == cached_at(before.cache@, other),
        after.cache@[cached_at(after.cache@, other)->0] == before.cache@[cached_at(
            before.cache@,
            other,
        )->0],
{
    lemma_cached_found(before.cache@, other, 0);
    if after != before {
        let locale = handle->Ok_0;
        lemma_cached_pushed(before.cache@, locale, other, 0);
    }
}

/// A load keeps the store well formed: the name it adds stood nowhere
/// before, and the locale it adds is well formed.
pub proof fn lemma_load_keeps_well_formed(
    before: AnLocales,
    name: Seq<char>,
    source: Result<(DataFormat, StringTable), LoadError>,
    after: AnLocales,
    handle: Result<Locale, LoadError>,
)
    requires
        loads(before, name, source, after, handle),
        before.wf(),
    ensures
        after.wf(),
{
    if after != before {
        let locale = handle->Ok_0;
        lemma_cached_absent(before.cache@, name, 0);
        assert forall|i: int| 0 <= i < after.cache@.len() implies (#[trigger] after.cache@[i]).wf() by {
            if i < before.cache@.len() {
                assert(after.cache@[i] == before.cache@[i]);
            }
        }
        assert forall|i: int, j: int| 0 <= i < j < after.cache@.len() implies #[trigger] after.cache@[i].name@
            != #[trigger] after.cache@[j].name@ by {
            assert(after.cache@[i] == before.cache@[i]);
            if j < before.cache@.len() {
                assert(after.cache@[j] == before.cache@[j]);
            }
        }
    }
}

/// A failed load leaves the store as it was.
pub proof fn lemma_failed_load_changes_nothing(
    before: AnLocales,
    name: Seq<char>,
    source: Result<(DataFormat, StringTable), LoadError>,
    after: AnLocales,
    handle: Result<Locale, LoadError>,
)
    requires
        loads(before, name, source, after, handle),
        handle is Err,
    ensures
        after == before,
{
}

} // verus!
