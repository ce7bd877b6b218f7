//! The active locale and its messages.

use vstd::prelude::*;

use super::bundle;
use super::bundle::{read_bundle, Bundle, InvalidBundle};
use super::bundles;
use crate::text;

verus! {

/// The localisation subsystem: nothing until it is initialised, then a locale and its messages for
/// good.
pub struct L10n {
    active: Option<Active>,
}

struct Active {
    locale: String,
    messages: Bundle,
}

/// A locale and its messages.
pub struct ActiveView {
    pub locale: Seq<char>,
    pub messages: Map<Seq<char>, Seq<char>>,
}

impl View for L10n {
    type V = Option<ActiveView>;

    closed spec fn view(&self) -> Option<ActiveView> {
        match self.active {
            Some(active) => Some(
                ActiveView { locale: active.locale@, messages: active.messages@ },
            ),
            None => None,
        }
    }
}

/// The subsystem after an initialisation: only the first takes effect.
pub open spec fn initialised(
    before: Option<ActiveView>,
    locale: Seq<char>,
    messages: Map<Seq<char>, Seq<char>>,
) -> Option<ActiveView> {
    match before {
        Some(_) => before,
        None => Some(ActiveView { locale, messages }),
    }
}

/// The text of the bundle for a locale. English is the fallback.
pub open spec fn bundle_text(locale: Seq<char>) -> Seq<char> {
    if locale == "zh-CN"@ {
        bundles::ZH_CN@
    } else {
        bundles::EN_US@
    }
}

/// The messages of the bundle for a locale, where its text holds any.
pub open spec fn bundle_messages(locale: Seq<char>) -> Option<Map<Seq<char>, Seq<char>>> {
    bundle::json_string_map(bundle_text(locale))
}

/// The language code in the form of a locale code: what stands before the first dot, with hyphens
/// for underscores.
pub open spec fn language_tag(language: Seq<char>) -> Seq<char> {
    text::before(language, '.').map_values(
        |c: char|
            if c == '_' {
                '-'
            } else {
                c
            },
    )
}

/// The locale for a language code.
pub open spec fn language_locale(language: Seq<char>) -> Seq<char> {
    if text::starts_with(language_tag(language), "zh"@) {
        "zh-CN"@
    } else {
        "en-US"@
    }
}

/// The language code that the environment asks for: the first variable that is set, or none.
pub open spec fn requested_language(codex_locale: Option<&str>, lang: Option<&str>) -> Seq<char> {
    match codex_locale {
        Some(language) => language@,
        None => match lang {
            Some(language) => language@,
            None => Seq::empty(),
        },
    }
}

/// The text of a message: its translation, or the ID where there is none.
pub open spec fn message(catalog: Option<ActiveView>, id: Seq<char>) -> Seq<char> {
    match catalog {
        Some(active) => if active.messages.contains_key(id) {
            active.messages[id]
        } else {
            id
        },
        None => id,
    }
}

/// The locale code that counts as active.
pub open spec fn locale_code(catalog: Option<ActiveView>) -> Seq<char> {
    match catalog {
        Some(active) => active.locale,
        None => "en-US"@,
    }
}

/// How a variable is written in a message.
pub open spec fn placeholder(key: Seq<char>) -> Seq<char> {
    seq!['{'] + key + seq!['}']
}

/// `message` with the placeholder of each key replaced with its value, one key after another.
pub open spec fn substituted(message: Seq<char>, args: Seq<(&str, &str)>) -> Seq<char>
    decreases args.len(),
{
    if args.len() == 0 {
        message
    } else {
        text::replace_all(
            substituted(message, args.drop_last()),
            placeholder(args.last().0@),
            args.last().1@,
        )
    }
}

impl L10n {
    /// A subsystem that is not initialised.
    pub fn new() -> (l10n: Self)
        ensures
            l10n@ is None,
    {
        L10n { active: None }
    }
}

/// Initialises with the messages of a locale.
pub fn install(l10n: &mut L10n, locale: &str, messages: Bundle)
    ensures
        final(l10n)@ == initialised(old(l10n)@, locale@, messages@),
{
    if l10n.active.is_none() {
        l10n.active = Some(Active { locale: locale.to_owned(), messages });
    }
}

/// The text of the bundle for a locale.
fn embedded_bundle(locale: &str) -> (raw: &'static str)
    ensures
        raw@ == bundle_text(locale@),
{
    if text::same(locale, "zh-CN") {
        bundles::ZH_CN
    } else {
        bundles::EN_US
    }
}

/// Initialise with an explicit locale code (e.g. `"zh-CN"`).
///
/// Safe to call multiple times: only the first call takes effect. The embedded bundle must be
/// valid; `try_init` finds out whether it is.
pub fn init(l10n: &mut L10n, locale: &str)
    requires
        bundle_messages(locale@) is Some,
    ensures
        final(l10n)@ == initialised(old(l10n)@, locale@, bundle_messages(locale@)->0),
{
    if let Ok(messages) = read_bundle(embedded_bundle(locale)) {
        install(l10n, locale, messages);
    }
}

/// As `init`, with an error in place of a demand on the embedded bundle.
pub fn try_init(l10n: &mut L10n, locale: &str) -> (done: Result<(), InvalidBundle>)
    ensures
        match bundle_messages(locale@) {
            Some(messages) => done is Ok && final(l10n)@ == initialised(
                old(l10n)@,
                locale@,
                messages,
            ),
            None => done is Err && final(l10n)@ == old(l10n)@,
        },
{
    match read_bundle(embedded_bundle(locale)) {
        Ok(_) => {
            init(l10n, locale);
            Ok(())
        },
        Err(error) => Err(error),
    }
}

/// The locale for a language code such as `zh_CN.UTF-8`: `zh-CN` for every variant of Chinese,
/// `en-US` for anything else.
pub fn locale_for_language(language: &str) -> (locale: &'static str)
    ensures
        locale@ == language_locale(language@),
{
    let code = text::split_first(language, '.');
    proof {
        reveal_strlit("_");
        reveal_strlit("-");
    }
    let tag = text::replace(code, "_", "-");
    proof {
        assert("_"@ =~= seq!['_']);
        assert("-"@ =~= seq!['-']);
        text::lemma_replace_character(code@, '_', '-');
    }
    if text::has_prefix(tag.as_str(), "zh") {
        "zh-CN"
    } else {
        "en-US"
    }
}

/// The language code that the environment asks for.
fn choose_language<'a>(codex_locale: Option<&'a str>, lang: Option<&'a str>) -> (language: &'a str)
    ensures
        language@ == requested_language(codex_locale, lang),
{
    match codex_locale {
        Some(language) => language,
        None => match lang {
            Some(language) => language,
            None => {
                proof {
                    reveal_strlit("");
                    assert(""@ =~= Seq::<char>::empty());
                }
                ""
            },
        },
    }
}

/// Initialise from the values of the `CODEX_LOCALE` and `LANG` environment variables, each where
/// it is set. Falls back to `en-US` when neither is set or when the requested locale has no bundled
/// data.
///
/// Safe to call multiple times: only the first call takes effect. The embedded bundle must be
/// valid; `try_init_from_env` finds out whether it is.
pub fn init_from_env(l10n: &mut L10n, codex_locale: Option<&str>, lang: Option<&str>)
    requires
        bundle_messages(language_locale(requested_language(codex_locale, lang))) is Some,
    ensures
        ({
            let locale = language_locale(requested_language(codex_locale, lang));
            final(l10n)@ == initialised(old(l10n)@, locale, bundle_messages(locale)->0)
        }),
{
    let locale = locale_for_language(choose_language(codex_locale, lang));
    init(l10n, locale);
}

/// As `init_from_env`, with an error in place of a demand on the embedded bundle.
pub fn try_init_from_env(
    l10n: &mut L10n,
    codex_locale: Option<&str>,
    lang: Option<&str>,
) -> (done: Result<(), InvalidBundle>)
    ensures
        ({
            let locale = language_locale(requested_language(codex_locale, lang));
            match bundle_messages(locale) {
                Some(messages) => done is Ok && final(l10n)@ == initialised(
                    old(l10n)@,
                    locale,
                    messages,
                ),
                None => done is Err && final(l10n)@ == old(l10n)@,
            }
        }),
{
    let locale = locale_for_language(choose_language(codex_locale, lang));
    match read_bundle(embedded_bundle(locale)) {
        Ok(_) => {
            init_from_env(l10n, codex_locale, lang);
            Ok(())
        },
        Err(error) => Err(error),
    }
}

/// Return the active locale string (e.g. `"zh-CN"`), or `"en-US"` if not initialised.
pub fn active_locale(l10n: &L10n) -> (locale: &str)
    ensures
        locale@ == locale_code(l10n@),
{
    match &l10n.active {
        Some(active) => active.locale.as_str(),
        None => "en-US",
    }
}

/// Look up a translated string by its message ID.
///
/// Returns the translated text when the ID exists in the active locale, otherwise returns `id`
/// itself (English = identity).
pub fn lookup<'a>(l10n: &'a L10n, id: &'a str) -> (translated: &'a str)
    ensures
        translated@ == message(l10n@, id@),
{
    if let Some(active) = &l10n.active {
        if let Some(translated) = active.messages.get(id) {
            return translated;
        }
    }
    id
}

/// Look up a translated string and substitute `{var}` placeholders.
///
/// Each entry in `args` is a `(key, value)` pair. Every occurrence of `{key}` in the translated
/// text is replaced with `value`, one pair after another.
pub fn lookup_with_args(l10n: &L10n, id: &str, args: &[(&str, &str)]) -> (translated: String)
    ensures
        translated@ == substituted(message(l10n@, id@), args@),
{
    let mut translated = lookup(l10n, id).to_owned();
    let mut k: usize = 0;
    while k < args.len()
        invariant
            k <= args@.len(),
            translated@ == substituted(message(l10n@, id@), args@.take(k as int)),
        decreases args@.len() - k,
    {
        let (key, value) = args[k];
        let mut pattern = "{".to_owned();
        pattern.append(key);
        pattern.append("}");
        proof {
            reveal_strlit("{");
            reveal_strlit("}");
            assert(pattern@ =~= placeholder(key@));
            let shown = args@.take(k + 1);
            assert(shown.drop_last() =~= args@.take(k as int));
            assert(shown.last() == args@[k as int]);
        }
        translated = text::replace(translated.as_str(), pattern.as_str(), value);
        k = k + 1;
    }
    assert(args@.take(args@.len() as int) =~= args@);
    translated
}

} // verus!
