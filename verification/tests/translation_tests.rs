use std::cell::Cell;
use std::rc::Rc;

use speech_translator::translation::{
    create_translation_engine, google_http_error, google_outcome, mymemory_http_error,
    mymemory_langpair, mymemory_outcome, BackendChoice, TranslationBackend, TranslationEngine,
    MAX_CACHE_SIZE,
};

/// A backend that upper-cases the text and counts its calls.
struct Shouting {
    calls: Cell<usize>,
    fail: bool,
}

impl TranslationBackend for Shouting {
    fn translate(&self, text: &str, source_lang: &str, target_lang: &str) -> Result<String, String> {
        self.calls.set(self.calls.get() + 1);
        if self.fail {
            Err(format!("service down ({}|{})", source_lang, target_lang))
        } else {
            Ok(format!("{}:{}", target_lang, text.to_uppercase()))
        }
    }

    fn name(&self) -> &str {
        "Shouting"
    }
}

fn engine(fail: bool) -> TranslationEngine<Shouting> {
    TranslationEngine::new(Shouting { calls: Cell::new(0), fail })
}

#[test]
fn empty_text_gives_empty_result_without_backend() {
    let mut e = engine(false);
    let r = e.translate("   \n", "en", "ta").unwrap();
    assert_eq!(r.source_text, "");
    assert_eq!(r.translated_text, "");
    assert_eq!(r.source_lang, "en");
    assert_eq!(r.target_lang, "ta");
    assert!(e.cached("", "en", "ta").is_none());
}

#[test]
fn translation_is_trimmed_and_remembered() {
    let mut e = engine(false);
    let r = e.translate("  can you hear me? ", "en", "ta").unwrap();
    assert_eq!(r.source_text, "can you hear me?");
    assert_eq!(r.translated_text, "ta:CAN YOU HEAR ME?");
    assert_eq!(e.cached("can you hear me?", "en", "ta").as_deref(), Some("ta:CAN YOU HEAR ME?"));
    // the repeated phrase, padded differently, is answered from memory
    let again = e.translate("can you hear me?\t", "en", "ta").unwrap();
    assert_eq!(again.translated_text, "ta:CAN YOU HEAR ME?");
    assert_eq!(again.source_text, "can you hear me?");
    assert_eq!(e.backend_name(), "Shouting");
}

/// A backend that shares its call count with the test.
struct Counting {
    calls: Rc<Cell<usize>>,
}

impl TranslationBackend for Counting {
    fn translate(&self, text: &str, _source_lang: &str, _target_lang: &str) -> Result<String, String> {
        self.calls.set(self.calls.get() + 1);
        Ok(text.chars().rev().collect())
    }

    fn name(&self) -> &str {
        "Counting"
    }
}

#[test]
fn repeated_phrase_calls_backend_once() {
    let calls = Rc::new(Cell::new(0));
    let mut e = TranslationEngine::new(Counting { calls: calls.clone() });
    for _ in 0..5 {
        assert_eq!(e.translate("hello", "en", "fr").unwrap().translated_text, "olleh");
    }
    assert_eq!(calls.get(), 1);
    e.translate(" hello ", "en", "fr").unwrap();
    assert_eq!(calls.get(), 1);
    e.translate("hello", "en", "de").unwrap();
    assert_eq!(calls.get(), 2);
    assert!(e.cached("hello", "fr", "en").is_none());
}

#[test]
fn backend_error_passes_through_and_is_not_remembered() {
    let mut e = engine(true);
    let err = e.translate("hello", "en", "ta").unwrap_err();
    assert_eq!(err, "service down (en|ta)");
    assert!(e.cached("hello", "en", "ta").is_none());
}

#[test]
fn complete_remembers_or_passes_errors() {
    let mut e = engine(false);
    let r = e.complete("hi", "en", "es", Ok("hola".to_string())).unwrap();
    assert_eq!(r.translated_text, "hola");
    assert_eq!(e.cached("hi", "en", "es").as_deref(), Some("hola"));
    let err = e.complete("bye", "en", "es", Err("nope".to_string())).unwrap_err();
    assert_eq!(err, "nope");
    assert!(e.cached("bye", "en", "es").is_none());
}

#[test]
fn memory_evicts_oldest_fifth_when_full() {
    let mut e = engine(false);
    for i in 0..MAX_CACHE_SIZE {
        e.translate(&format!("phrase {}", i), "en", "ta").unwrap();
    }
    assert!(e.cached("phrase 0", "en", "ta").is_some());
    assert!(e.cached("phrase 499", "en", "ta").is_some());
    e.translate("one more", "en", "ta").unwrap();
    for i in 0..100 {
        assert!(e.cached(&format!("phrase {}", i), "en", "ta").is_none(), "phrase {}", i);
    }
    for i in 100..MAX_CACHE_SIZE {
        assert!(e.cached(&format!("phrase {}", i), "en", "ta").is_some(), "phrase {}", i);
    }
    assert!(e.cached("one more", "en", "ta").is_some());
}

#[test]
fn translation_backend_choice() {
    assert!(matches!(create_translation_engine("libre", None), Ok(BackendChoice::Libre)));
    assert!(matches!(create_translation_engine("other", Some("k")), Ok(BackendChoice::Libre)));
    match create_translation_engine("google", Some("gkey")) {
        Ok(BackendChoice::Google { api_key }) => assert_eq!(api_key, "gkey"),
        other => panic!("unexpected {:?}", other),
    }
    // without a Google key the free service is used
    assert!(matches!(create_translation_engine("google", None), Ok(BackendChoice::Libre)));
}

#[test]
fn service_replies() {
    assert_eq!(mymemory_langpair("en", "ta"), "en|ta");
    assert_eq!(mymemory_outcome(200, "vanakkam".to_string()), Ok("vanakkam".to_string()));
    assert_eq!(
        mymemory_outcome(403, "x".to_string()),
        Err("MyMemory returned status 403".to_string())
    );
    assert_eq!(
        google_outcome(vec!["hola".to_string(), "adios".to_string()]),
        Ok("hola".to_string())
    );
    assert_eq!(google_outcome(vec![]), Err("No translation returned".to_string()));
}

#[test]
fn remembered_translation_survives_other_requests() {
    let calls = Rc::new(Cell::new(0));
    let mut e = TranslationEngine::new(Counting { calls: calls.clone() });
    e.translate("keep me", "en", "ta").unwrap();
    for i in 0..300 {
        e.translate(&format!("other {}", i), "en", "ta").unwrap();
        e.translate("   ", "en", "ta").unwrap();
    }
    assert_eq!(calls.get(), 301);
    assert_eq!(e.translate(" keep me ", "en", "ta").unwrap().translated_text, "em peek");
    assert_eq!(calls.get(), 301);
    // the same text between other languages is a different request
    assert_eq!(e.translate("keep me", "en", "hi").unwrap().translated_text, "em peek");
    assert_eq!(calls.get(), 302);
}

#[test]
fn languages_reach_the_backend_in_order() {
    let mut e = engine(false);
    assert_eq!(e.translate("hello", "en", "ta").unwrap().translated_text, "ta:HELLO");
    assert_eq!(e.translate("hello", "en", "hi").unwrap().translated_text, "hi:HELLO");
    let err = engine(true).translate("x", "en", "de").unwrap_err();
    assert_eq!(err, "service down (en|de)");
}

#[test]
fn backend_names_shown() {
    assert_eq!(create_translation_engine("libre", None).unwrap().display_name(), "MyMemory (Free)");
    assert_eq!(create_translation_engine("deepl", None).unwrap().display_name(), "MyMemory (Free)");
    assert_eq!(create_translation_engine("google", None).unwrap().display_name(), "MyMemory (Free)");
    assert_eq!(
        create_translation_engine("google", Some("k")).unwrap().display_name(),
        "Google Cloud Translation (Paid)"
    );
}

#[test]
fn http_failures_name_the_status() {
    assert_eq!(mymemory_http_error("429 Too Many Requests"), "MyMemory API error (429 Too Many Requests)");
    assert_eq!(
        google_http_error("403 Forbidden", "{\"error\":\"bad key\"}"),
        "Google Translate API error (403 Forbidden): {\"error\":\"bad key\"}"
    );
    assert_eq!(google_http_error("500 Internal Server Error", ""), "Google Translate API error (500 Internal Server Error): ");
}

#[test]
fn repeat_in_a_run_is_answered_from_memory() {
    let calls = Rc::new(Cell::new(0));
    let mut e = TranslationEngine::new(Counting { calls: calls.clone() });
    let first = e.translate("good night", "en", "fr").unwrap();
    e.translate("one", "en", "fr").unwrap();
    e.translate("", "en", "fr").unwrap();
    e.translate("two", "en", "fr").unwrap();
    assert_eq!(calls.get(), 3);
    let again = e.translate("  good night\t", "en", "fr").unwrap();
    assert_eq!(calls.get(), 3);
    assert_eq!(again.translated_text, first.translated_text);
    assert_eq!(again.source_text, "good night");
    assert_eq!(again.source_lang, "en");
    assert_eq!(again.target_lang, "fr");
}
