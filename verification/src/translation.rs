//! Translation with a memory of earlier results, over any translation backend.
use vstd::prelude::*;

use crate::text::{decimal, decimal_string, join2, str_equals, trim, trim_str};

verus! {

/// A translated sentence with its languages.
#[derive(Debug, Clone)]
pub struct TranslationResult {
    pub source_text: String,
    pub translated_text: String,
    pub source_lang: String,
    pub target_lang: String,
}

/// Interface of the translation services.
pub trait TranslationBackend {
    /// Whether `reply` is a reply the service may give when asked to translate
    /// `text` from `source_lang` to `target_lang`; a service that says no more
    /// admits every reply.
    open spec fn answers(
        &self,
        text: Seq<char>,
        source_lang: Seq<char>,
        target_lang: Seq<char>,
        reply: Result<Seq<char>, Seq<char>>,
    ) -> bool {
        true
    }

    /// Whether `name` is a name under which the service is shown; a service
    /// that says no more admits every name.
    open spec fn shown_as(&self, name: Seq<char>) -> bool {
        true
    }

    /// Translates `text` from `source_lang` to `target_lang`, or says why not.
    fn translate(&self, text: &str, source_lang: &str, target_lang: &str) -> (res: Result<
        String,
        String,
    >)
        ensures
            self.answers(text@, source_lang@, target_lang@, reply_view(res)),
    ;

    /// A name for the service, for display.
    fn name(&self) -> (res: &str)
        ensures
            self.shown_as(res@),
    ;
}

/// The view of a service's reply.
pub open spec fn reply_view(r: Result<String, String>) -> Result<Seq<char>, Seq<char>> {
    match r {
        Ok(t) => Ok(t@),
        Err(e) => Err(e@),
    }
}

/// Most translations the memory keeps.
pub const MAX_CACHE_SIZE: usize = 500;

/// How many entries are dropped when the memory is full: a fifth of it.
pub const CACHE_EVICTION_COUNT: usize = 100;

/// What a remembered translation is found by: text, source and target language.
pub type CacheKey = (Seq<char>, Seq<char>, Seq<char>);

/// The translation remembered for `key`, if any.
pub open spec fn cache_lookup(entries: Seq<(CacheKey, Seq<char>)>, key: CacheKey) -> Option<
    Seq<char>,
>
    decreases entries.len(),
{
    if entries.len() == 0 {
        None
    } else if entries.last().0 == key {
        Some(entries.last().1)
    } else {
        cache_lookup(entries.drop_last(), key)
    }
}

/// No key is remembered twice.
pub open spec fn keys_unique(entries: Seq<(CacheKey, Seq<char>)>) -> bool {
    forall|i: int, j: int| 0 <= i < j < entries.len() ==> entries[i].0 != entries[j].0
}

/// The memory after remembering `value` for `key`: when it is full, the
/// oldest fifth is dropped first.
pub open spec fn cache_insert(
    entries: Seq<(CacheKey, Seq<char>)>,
    key: CacheKey,
    value: Seq<char>,
) -> Seq<(CacheKey, Seq<char>)> {
    let kept = if entries.len() >= MAX_CACHE_SIZE {
        entries.skip(CACHE_EVICTION_COUNT as int)
    } else {
        entries
    };
    kept.push((key, value))
}

/// The key under which a request is remembered: the trimmed text and the two
/// languages.
pub open spec fn request_key(text: Seq<char>, source_lang: Seq<char>, target_lang: Seq<char>) -> CacheKey {
    (trim(text), source_lang, target_lang)
}

/// The result that a request gives.
pub open spec fn result_is(
    r: TranslationResult,
    source_text: Seq<char>,
    translated_text: Seq<char>,
    source_lang: Seq<char>,
    target_lang: Seq<char>,
) -> bool {
    &&& r.source_text@ == source_text
    &&& r.translated_text@ == translated_text
    &&& r.source_lang@ == source_lang
    &&& r.target_lang@ == target_lang
}

/// What a request to translate `text` gives and does to the memory, from
/// `before` to `after`: empty text gives an empty result and changes nothing;
/// a remembered translation is returned as it is; otherwise the backend is
/// asked for the trimmed text between the same languages, and its reply is
/// the result: a translation is returned and remembered, an error is passed on.
pub open spec fn translation_outcome<B: TranslationBackend>(
    backend: B,
    before: Seq<(CacheKey, Seq<char>)>,
    after: Seq<(CacheKey, Seq<char>)>,
    text: Seq<char>,
    source_lang: Seq<char>,
    target_lang: Seq<char>,
    res: Result<TranslationResult, String>,
) -> bool {
    let key = request_key(text, source_lang, target_lang);
    let t = key.0;
    if t.len() == 0 {
        (res matches Ok(r) && result_is(r, Seq::empty(), Seq::empty(), source_lang, target_lang))
            && after == before
    } else if cache_lookup(before, key) is Some {
        (res matches Ok(r) && result_is(
            r,
            t,
            cache_lookup(before, key)->0,
            source_lang,
            target_lang,
        )) && after == before
    } else {
        match res {
            Ok(r) => {
                &&& result_is(r, t, r.translated_text@, source_lang, target_lang)
                &&& backend.answers(t, source_lang, target_lang, Ok(r.translated_text@))
                &&& after == cache_insert(before, key, r.translated_text@)
            },
            Err(e) => {
                &&& backend.answers(t, source_lang, target_lang, Err(e@))
                &&& after == before
            },
        }
    }
}

struct CacheEntry {
    text: String,
    source_lang: String,
    target_lang: String,
    translated: String,
}

impl CacheEntry {
    spec fn pair(self) -> (CacheKey, Seq<char>) {
        ((self.text@, self.source_lang@, self.target_lang@), self.translated@)
    }
}

proof fn lemma_lookup_none(entries: Seq<(CacheKey, Seq<char>)>, key: CacheKey)
    ensures
        cache_lookup(entries, key) is None <==> forall|i: int|
            0 <= i < entries.len() ==> #[trigger] entries[i].0 != key,
    decreases entries.len(),
{
    if entries.len() > 0 {
        lemma_lookup_none(entries.drop_last(), key);
        assert forall|i: int| 0 <= i < entries.len() - 1 implies entries.drop_last()[i]
            == entries[i] by {}
    }
}

/// A translation engine that remembers up to [`MAX_CACHE_SIZE`] earlier
/// results, so that repeated phrases are answered without the backend.
pub struct TranslationEngine<B: TranslationBackend> {
    backend: B,
    cache: Vec<CacheEntry>,
    max_cache_size: usize,
}

impl<B: TranslationBackend> View for TranslationEngine<B> {
    type V = Seq<(CacheKey, Seq<char>)>;

    /// The remembered translations, oldest first.
    closed spec fn view(&self) -> Seq<(CacheKey, Seq<char>)> {
        self.cache@.map_values(|e: CacheEntry| e.pair())
    }
}

impl<B: TranslationBackend> TranslationEngine<B> {
    /// The engine's invariant: no key twice, at most [`MAX_CACHE_SIZE`] entries.
    pub closed spec fn wf(&self) -> bool {
        &&& keys_unique(self@)
        &&& self@.len() <= MAX_CACHE_SIZE
        &&& self.max_cache_size == MAX_CACHE_SIZE
    }

    /// The backend the engine translates with.
    pub closed spec fn backend_spec(&self) -> B {
        self.backend
    }

    /// An engine over `backend` with an empty memory.
    pub fn new(backend: B) -> (res: Self)
        ensures
            res.wf(),
            res@ == Seq::<(CacheKey, Seq<char>)>::empty(),
            res.backend_spec() == backend,
    {
        let res = TranslationEngine { backend, cache: Vec::new(), max_cache_size: MAX_CACHE_SIZE };
        assert(res@ =~= Seq::<(CacheKey, Seq<char>)>::empty());
        res
    }

    /// The backend's name.
    pub fn backend_name(&self) -> (res: &str)
        ensures
            self.backend_spec().shown_as(res@),
    {
        self.backend.name()
    }

    /// The remembered translation of `text` (already trimmed) between the two
    /// languages, if any.
    pub fn cached(&self, text: &str, source_lang: &str, target_lang: &str) -> (res: Option<String>)
        ensures
            match cache_lookup(self@, (text@, source_lang@, target_lang@)) {
                Some(v) => res matches Some(s) && s@ == v,
                None => res is None,
            },
    {
        let ghost key = (text@, source_lang@, target_lang@);
        let mut i = self.cache.len();
        assert(self@.take(i as int) =~= self@);
        while i > 0
            invariant
                i <= self.cache@.len(),
                key == (text@, source_lang@, target_lang@),
                self@ == self.cache@.map_values(|e: CacheEntry| e.pair()),
                cache_lookup(self@, key) == cache_lookup(self@.take(i as int), key),
            decreases i,
        {
            let e = &self.cache[i - 1];
            assert(self@.take(i as int).drop_last() =~= self@.take(i - 1));
            assert(self@.take(i as int).last() == e.pair());
            let same = str_equals(e.text.as_str(), text) && str_equals(
                e.source_lang.as_str(),
                source_lang,
            ) && str_equals(e.target_lang.as_str(), target_lang);
            if same {
                assert(e.pair().0 == key);
                assert(cache_lookup(self@.take(i as int), key) == Some(e.translated@));
                return Some(e.translated.clone());
            }
            assert(e.pair().0 != key);
            i = i - 1;
        }
        None
    }

    /// Completes a request that the memory could not answer, with what the
    /// backend gave: a translation is remembered and returned, an error is
    /// passed on and nothing changes.
    pub fn complete(
        &mut self,
        text: &str,
        source_lang: &str,
        target_lang: &str,
        outcome: Result<String, String>,
    ) -> (res: Result<TranslationResult, String>)
        requires
            old(self).wf(),
            cache_lookup(old(self)@, (text@, source_lang@, target_lang@)) is None,
        ensures
            final(self).wf(),
            final(self).backend_spec() == old(self).backend_spec(),
            match outcome {
                Ok(t) => (res matches Ok(r) && result_is(r, text@, t@, source_lang@, target_lang@))
                    && final(self)@ == cache_insert(
                    old(self)@,
                    (text@, source_lang@, target_lang@),
                    t@,
                ),
                Err(e) => res == Err::<TranslationResult, String>(e) && final(self)@ == old(self)@,
            },
    {
        match outcome {
            Err(e) => Err(e),
            Ok(translated) => {
                let ghost old_view = self@;
                let ghost key = (text@, source_lang@, target_lang@);
                proof {
                    lemma_lookup_none(old_view, key);
                }
                if self.cache.len() >= self.max_cache_size {
                    let kept = self.cache.split_off(CACHE_EVICTION_COUNT);
                    self.cache = kept;
                    assert(self@ =~= old_view.skip(CACHE_EVICTION_COUNT as int));
                }
                let ghost kept_view = self@;
                self.cache.push(
                    CacheEntry {
                        text: String::from_str(text),
                        source_lang: String::from_str(source_lang),
                        target_lang: String::from_str(target_lang),
                        translated: translated.clone(),
                    },
                );
                assert(self@ =~= kept_view.push((key, translated@)));
                assert(keys_unique(self@)) by {
                    assert forall|i: int, j: int| 0 <= i < j < self@.len() implies self@[i].0
                        != self@[j].0 by {
                        if j == self@.len() - 1 {
                            if old_view.len() >= MAX_CACHE_SIZE {
                                assert(self@[i] == old_view[i + CACHE_EVICTION_COUNT]);
                            } else {
                                assert(self@[i] == old_view[i]);
                            }
                        } else if old_view.len() >= MAX_CACHE_SIZE {
                            assert(self@[i] == old_view[i + CACHE_EVICTION_COUNT]);
                            assert(self@[j] == old_view[j + CACHE_EVICTION_COUNT]);
                        }
                    }
                }
                Ok(
                    TranslationResult {
                        source_text: String::from_str(text),
                        translated_text: translated,
                        source_lang: String::from_str(source_lang),
                        target_lang: String::from_str(target_lang),
                    },
                )
            },
        }
    }

    /// Translates `text`, trimmed: empty text gives an empty result, a
    /// remembered translation is returned as it is, and otherwise the backend
    /// is asked and a translation it gives is remembered.
    pub fn translate(&mut self, text: &str, source_lang: &str, target_lang: &str) -> (res: Result<
        TranslationResult,
        String,
    >)
        requires
            old(self).wf(),
        ensures
            final(self).wf(),
            final(self).backend_spec() == old(self).backend_spec(),
            translation_outcome(
                old(self).backend_spec(),
                old(self)@,
                final(self)@,
                text@,
                source_lang@,
                target_lang@,
                res,
            ),
    {
        let trimmed = trim_str(text);
        if trimmed.unicode_len() == 0 {
            return Ok(
                TranslationResult {
                    source_text: String::new(),
                    translated_text: String::new(),
                    source_lang: String::from_str(source_lang),
                    target_lang: String::from_str(target_lang),
                },
            );
        }
        match self.cached(trimmed, source_lang, target_lang) {
            Some(translated) => Ok(
                TranslationResult {
                    source_text: String::from_str(trimmed),
                    translated_text: translated,
                    source_lang: String::from_str(source_lang),
                    target_lang: String::from_str(target_lang),
                },
            ),
            None => {
                let outcome = self.backend.translate(trimmed, source_lang, target_lang);
                self.complete(trimmed, source_lang, target_lang, outcome)
            },
        }
    }
}

/// The translation service to build.
#[derive(Debug)]
pub enum BackendChoice {
    /// The free MyMemory service.
    Libre,
    /// Google Cloud Translation, with its API key.
    Google { api_key: String },
}

/// Chooses the translation backend: "google" with an API key selects Google
/// Cloud Translation; without a key, and for "libre" and every other name,
/// the free MyMemory service is used. The choice never fails.
pub fn create_translation_engine(engine_type: &str, api_key: Option<&str>) -> (res: Result<
    BackendChoice,
    String,
>)
    ensures
        engine_type@ == "google"@ ==> match api_key {
            Some(k) => (res matches Ok(BackendChoice::Google { api_key: key }) && key@ == k@),
            None => res matches Ok(BackendChoice::Libre),
        },
        engine_type@ != "google"@ ==> res matches Ok(BackendChoice::Libre),
{
    proof {
        reveal_strlit("libre");
        reveal_strlit("google");
        broadcast use vstd::string::group_string_axioms;

        assert("libre"@.len() == 5);
        assert("libre"@ != "google"@);
    }
    if str_equals(engine_type, "libre") {
        Ok(BackendChoice::Libre)
    } else if str_equals(engine_type, "google") {
        match api_key {
            Some(k) => Ok(BackendChoice::Google { api_key: String::from_str(k) }),
            None => Ok(BackendChoice::Libre),
        }
    } else {
        Ok(BackendChoice::Libre)
    }
}

impl BackendChoice {
    /// The name under which the chosen service is shown.
    pub fn display_name(&self) -> (res: &'static str)
        ensures
            res@ == (match self {
                BackendChoice::Libre => "MyMemory (Free)"@,
                BackendChoice::Google { .. } => "Google Cloud Translation (Paid)"@,
            }),
    {
        match self {
            BackendChoice::Libre => "MyMemory (Free)",
            BackendChoice::Google { .. } => "Google Cloud Translation (Paid)",
        }
    }
}

/// Law: a translation the engine has just remembered answers every later
/// request for the same text and languages, also when the text comes with
/// other surrounding whitespace or already trimmed; the memory keeps no key
/// twice and stays within [`MAX_CACHE_SIZE`].
pub proof fn lemma_translation_remembered(
    entries: Seq<(CacheKey, Seq<char>)>,
    text: Seq<char>,
    source_lang: Seq<char>,
    target_lang: Seq<char>,
    translated: Seq<char>,
)
    requires
        keys_unique(entries),
        entries.len() <= MAX_CACHE_SIZE,
        cache_lookup(entries, request_key(text, source_lang, target_lang)) is None,
    ensures
        ({
            let after = cache_insert(entries, request_key(text, source_lang, target_lang), translated);
            &&& cache_lookup(after, request_key(text, source_lang, target_lang)) == Some(translated)
            &&& cache_lookup(after, request_key(trim(text), source_lang, target_lang)) == Some(
                translated,
            )
            &&& forall|other: Seq<char>|
                trim(other) == trim(text) ==> cache_lookup(
                    after,
                    #[trigger] request_key(other, source_lang, target_lang),
                ) == Some(translated)
            &&& keys_unique(after)
            &&& after.len() <= MAX_CACHE_SIZE
        }),
{
    let key = request_key(text, source_lang, target_lang);
    crate::text::lemma_trim_idempotent(text);
    assert(request_key(trim(text), source_lang, target_lang) == key);
    lemma_lookup_none(entries, key);
    let kept = if entries.len() >= MAX_CACHE_SIZE {
        entries.skip(CACHE_EVICTION_COUNT as int)
    } else {
        entries
    };
    let after = kept.push((key, translated));
    assert forall|i: int, j: int| 0 <= i < j < after.len() implies after[i].0 != after[j].0 by {
        if entries.len() >= MAX_CACHE_SIZE {
            assert(after[i] == entries[i + CACHE_EVICTION_COUNT]);
            if j < after.len() - 1 {
                assert(after[j] == entries[j + CACHE_EVICTION_COUNT]);
            }
        } else {
            assert(after[i] == entries[i]);
            if j < after.len() - 1 {
                assert(after[j] == entries[j]);
            }
        }
    }
}

/// Law: the memory of a well-formed engine keeps no key twice and holds at
/// most [`MAX_CACHE_SIZE`] translations.
pub proof fn lemma_memory_bounded<B: TranslationBackend>(engine: &TranslationEngine<B>)
    requires
        engine.wf(),
    ensures
        keys_unique(engine@),
        engine@.len() <= MAX_CACHE_SIZE,
{
}

/// The `langpair` parameter of a MyMemory request: `source|target`.
pub fn mymemory_langpair(source_lang: &str, target_lang: &str) -> (res: String)
    ensures
        res@ == source_lang@ + "|"@ + target_lang@,
{
    let mut pair = join2(source_lang, "|");
    pair.append(target_lang);
    pair
}

/// What a MyMemory reply means: its translation when its `responseStatus` is
/// 200, else an error that names the status.
pub fn mymemory_outcome(response_status: u32, translated_text: String) -> (res: Result<
    String,
    String,
>)
    ensures
        response_status == 200 ==> res == Ok::<String, String>(translated_text),
        response_status != 200 ==> (res matches Err(e) && e@ == "MyMemory returned status "@
            + decimal(response_status as nat)),
{
    if response_status != 200 {
        let mut message = String::from_str("MyMemory returned status ");
        let status = decimal_string(response_status);
        message.append(status.as_str());
        return Err(message);
    }
    Ok(translated_text)
}

/// The error for a MyMemory reply whose HTTP status is not a success;
/// `status` is the status as the HTTP client shows it.
pub fn mymemory_http_error(status: &str) -> (res: String)
    ensures
        res@ == "MyMemory API error ("@ + status@ + ")"@,
{
    let mut message = join2("MyMemory API error (", status);
    message.append(")");
    message
}

/// The error for a Google reply whose HTTP status is not a success, with the
/// status as the HTTP client shows it and the body of the reply.
pub fn google_http_error(status: &str, body: &str) -> (res: String)
    ensures
        res@ == "Google Translate API error ("@ + status@ + "): "@ + body@,
{
    let mut message = join2("Google Translate API error (", status);
    message.append("): ");
    message.append(body);
    message
}

/// What a Google reply means: its first translation, or an error when it
/// holds none.
pub fn google_outcome(translations: Vec<String>) -> (res: Result<String, String>)
    ensures
        translations@.len() > 0 ==> res == Ok::<String, String>(translations@[0]),
        translations@.len() == 0 ==> (res matches Err(e) && e@ == "No translation returned"@),
{
    let mut translations = translations;
    if translations.len() == 0 {
        return Err(String::from_str("No translation returned"));
    }
    Ok(translations.remove(0))
}

proof fn lemma_lookup_found(entries: Seq<(CacheKey, Seq<char>)>, key: CacheKey)
    ensures
        cache_lookup(entries, key) is Some ==> exists|i: int|
            0 <= i < entries.len() && #[trigger] entries[i] == (key, cache_lookup(entries, key)->0),
        keys_unique(entries) ==> forall|i: int|
            0 <= i < entries.len() && #[trigger] entries[i].0 == key ==> cache_lookup(entries, key)
                == Some(entries[i].1),
    decreases entries.len(),
{
    if entries.len() > 0 {
        let init = entries.drop_last();
        lemma_lookup_found(init, key);
        if cache_lookup(entries, key) is Some && entries.last().0 != key {
            let i = choose|i: int|
                0 <= i < init.len() && #[trigger] init[i] == (key, cache_lookup(init, key)->0);
            assert(entries[i] == init[i]);
        }
        if keys_unique(entries) {
            assert(keys_unique(init));
            assert forall|i: int| 0 <= i < entries.len() && #[trigger] entries[i].0 == key implies cache_lookup(
                entries,
                key,
            ) == Some(entries[i].1) by {
                if i < entries.len() - 1 {
                    assert(init[i] == entries[i]);
                }
            }
        }
    }
}

/// The memory after remembering each translation of `inserts`, in order.
pub open spec fn remember_all(
    entries: Seq<(CacheKey, Seq<char>)>,
    inserts: Seq<(CacheKey, Seq<char>)>,
) -> Seq<(CacheKey, Seq<char>)>
    decreases inserts.len(),
{
    if inserts.len() == 0 {
        entries
    } else {
        let prev = remember_all(entries, inserts.drop_last());
        cache_insert(prev, inserts.last().0, inserts.last().1)
    }
}

/// Law: remembering the translation of another request leaves a remembered
/// translation in place, unless the memory was full and it was among the
/// oldest fifth, which is then dropped.
pub proof fn lemma_remembered_after_other(
    entries: Seq<(CacheKey, Seq<char>)>,
    key: CacheKey,
    value: Seq<char>,
    other: CacheKey,
    other_value: Seq<char>,
)
    requires
        keys_unique(entries),
        cache_lookup(entries, key) == Some(value),
        other != key,
        entries.len() >= MAX_CACHE_SIZE ==> forall|i: int|
            0 <= i < CACHE_EVICTION_COUNT && i < entries.len() ==> #[trigger] entries[i].0 != key,
    ensures
        cache_lookup(cache_insert(entries, other, other_value), key) == Some(value),
{
    let kept = if entries.len() >= MAX_CACHE_SIZE {
        entries.skip(CACHE_EVICTION_COUNT as int)
    } else {
        entries
    };
    assert(cache_insert(entries, other, other_value).drop_last() == kept);
    lemma_lookup_found(entries, key);
    if entries.len() >= MAX_CACHE_SIZE {
        let i = choose|i: int| 0 <= i < entries.len() && #[trigger] entries[i] == (key, value);
        assert(i >= CACHE_EVICTION_COUNT);
        assert(kept[i - CACHE_EVICTION_COUNT] == entries[i]);
        assert(keys_unique(kept)) by {
            assert forall|a: int, b: int| 0 <= a < b < kept.len() implies kept[a].0 != kept[b].0 by {
                assert(kept[a] == entries[a + CACHE_EVICTION_COUNT]);
                assert(kept[b] == entries[b + CACHE_EVICTION_COUNT]);
            }
        }
        lemma_lookup_found(kept, key);
    }
}

/// Law: a remembered translation keeps answering its request across any
/// number of translations of other requests remembered after it, as long as
/// the memory does not fill up (requests answered from memory, empty ones and
/// failed ones change nothing; see [`translation_outcome`]).
pub proof fn lemma_remembered_until_full(
    entries: Seq<(CacheKey, Seq<char>)>,
    key: CacheKey,
    value: Seq<char>,
    inserts: Seq<(CacheKey, Seq<char>)>,
)
    requires
        cache_lookup(entries, key) == Some(value),
        entries.len() + inserts.len() <= MAX_CACHE_SIZE,
        forall|j: int| 0 <= j < inserts.len() ==> #[trigger] inserts[j].0 != key,
    ensures
        cache_lookup(remember_all(entries, inserts), key) == Some(value),
        remember_all(entries, inserts).len() == entries.len() + inserts.len(),
    decreases inserts.len(),
{
    if inserts.len() > 0 {
        let init = inserts.drop_last();
        assert forall|j: int| 0 <= j < init.len() implies #[trigger] init[j].0 != key by {
            assert(init[j] == inserts[j]);
        }
        lemma_remembered_until_full(entries, key, value, init);
        let prev = remember_all(entries, init);
        let after = cache_insert(prev, inserts.last().0, inserts.last().1);
        assert(prev.len() < MAX_CACHE_SIZE);
        assert(after.drop_last() =~= prev);
        assert(after.last().0 != key);
    }
}

/// A run of requests to one engine over `backend`: request `i` asks to
/// translate `requests[i]` (text, source and target language) and gives
/// `results[i]`, taking the memory from `states[i]` to `states[i + 1]`.
pub open spec fn translation_run<B: TranslationBackend>(
    backend: B,
    states: Seq<Seq<(CacheKey, Seq<char>)>>,
    requests: Seq<(Seq<char>, Seq<char>, Seq<char>)>,
    results: Seq<Result<TranslationResult, String>>,
) -> bool {
    &&& states.len() == requests.len() + 1
    &&& results.len() == requests.len()
    &&& forall|i: int|
        0 <= i < requests.len() ==> #[trigger] translation_outcome(
            backend,
            states[i],
            states[i + 1],
            requests[i].0,
            requests[i].1,
            requests[i].2,
            results[i],
        )
}

proof fn lemma_run_keeps_translation<B: TranslationBackend>(
    backend: B,
    states: Seq<Seq<(CacheKey, Seq<char>)>>,
    requests: Seq<(Seq<char>, Seq<char>, Seq<char>)>,
    results: Seq<Result<TranslationResult, String>>,
    key: CacheKey,
    value: Seq<char>,
    start: int,
    m: int,
)
    requires
        translation_run(backend, states, requests, results),
        0 <= start <= m <= requests.len(),
        cache_lookup(states[start], key) == Some(value),
        forall|k: int| start <= k < m ==> #[trigger] states[k].len() < MAX_CACHE_SIZE,
    ensures
        cache_lookup(states[m], key) == Some(value),
    decreases m - start,
{
    if m > start {
        let k = m - 1;
        lemma_run_keeps_translation(backend, states, requests, results, key, value, start, k);
        assert(translation_outcome(
            backend,
            states[k],
            states[k + 1],
            requests[k].0,
            requests[k].1,
            requests[k].2,
            results[k],
        ));
        assert(states[k].len() < MAX_CACHE_SIZE);
        let asked = request_key(requests[k].0, requests[k].1, requests[k].2);
        if asked.0.len() > 0 && cache_lookup(states[k], asked) is None && results[k] is Ok {
            assert(asked != key);
            assert(states[m].drop_last() =~= states[k]);
            assert(states[m].last().0 == asked);
        }
    }
}

/// Law: in a run of requests to one engine, a request whose trimmed text was
/// translated earlier in the run, between the same languages, is answered
/// from memory with that translation and leaves the memory as it is, as long
/// as the memory has not filled up in between.
pub proof fn lemma_repeat_answered_from_memory<B: TranslationBackend>(
    backend: B,
    states: Seq<Seq<(CacheKey, Seq<char>)>>,
    requests: Seq<(Seq<char>, Seq<char>, Seq<char>)>,
    results: Seq<Result<TranslationResult, String>>,
    i: int,
    j: int,
)
    requires
        translation_run(backend, states, requests, results),
        0 <= i < j < requests.len(),
        results[i] is Ok,
        request_key(requests[i].0, requests[i].1, requests[i].2).0.len() > 0,
        request_key(requests[j].0, requests[j].1, requests[j].2) == request_key(
            requests[i].0,
            requests[i].1,
            requests[i].2,
        ),
        forall|k: int| i < k < j ==> #[trigger] states[k].len() < MAX_CACHE_SIZE,
    ensures
        results[i] matches Ok(first) && results[j] matches Ok(again) && result_is(
            again,
            trim(requests[j].0),
            first.translated_text@,
            requests[j].1,
            requests[j].2,
        ),
        states[j + 1] == states[j],
{
    let key = request_key(requests[i].0, requests[i].1, requests[i].2);
    assert(translation_outcome(
        backend,
        states[i],
        states[i + 1],
        requests[i].0,
        requests[i].1,
        requests[i].2,
        results[i],
    ));
    let first = results[i]->Ok_0;
    let value = first.translated_text@;
    if cache_lookup(states[i], key) is None {
        assert(states[i + 1].last() == (key, value));
    }
    assert(cache_lookup(states[i + 1], key) == Some(value));
    lemma_run_keeps_translation(backend, states, requests, results, key, value, i + 1, j);
    assert(translation_outcome(
        backend,
        states[j],
        states[j + 1],
        requests[j].0,
        requests[j].1,
        requests[j].2,
        results[j],
    ));
}

} // verus!
