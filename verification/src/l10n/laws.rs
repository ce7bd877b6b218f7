//! What holds of every localisation.

use vstd::prelude::*;

use super::bundle;
use super::bundles;
use super::catalog;
use super::catalog::ActiveView;
use crate::text;

verus! {

/// Only the first initialisation takes effect: after it, another changes nothing.
pub proof fn law_first_initialisation_wins(
    before: Option<ActiveView>,
    locale: Seq<char>,
    messages: Map<Seq<char>, Seq<char>>,
    other_locale: Seq<char>,
    other_messages: Map<Seq<char>, Seq<char>>,
)
    ensures
        ({
            let once = catalog::initialised(before, locale, messages);
            catalog::initialised(once, other_locale, other_messages) == once
        }),
{
}

/// After the first initialisation the locale is the one that was asked for, and a message that its
/// bundle holds is looked up there.
pub proof fn law_lookup_reads_the_installed_bundle(
    locale: Seq<char>,
    messages: Map<Seq<char>, Seq<char>>,
    id: Seq<char>,
)
    ensures
        ({
            let active = catalog::initialised(None, locale, messages);
            &&& catalog::locale_code(active) == locale
            &&& messages.contains_key(id) ==> catalog::message(active, id) == messages[id]
        }),
{
}

/// A locale without a bundle of its own has the English messages.
pub proof fn law_english_is_the_fallback(locale: Seq<char>)
    requires
        locale != "zh-CN"@,
    ensures
        catalog::bundle_messages(locale) == catalog::bundle_messages("en-US"@),
{
    reveal_strlit("zh-CN");
    reveal_strlit("en-US");
    assert("zh-CN"@[0] != "en-US"@[0]);
}

/// Where `CODEX_LOCALE` is set, `LANG` makes no difference.
pub proof fn law_codex_locale_takes_precedence(
    codex_locale: &str,
    lang: Option<&str>,
    other_lang: Option<&str>,
)
    ensures
        catalog::requested_language(Some(codex_locale), lang) == catalog::requested_language(
            Some(codex_locale),
            other_lang,
        ),
{
}

/// A language code in the form of a locale code has no dot and no underscore.
pub proof fn law_language_tag_is_normalised(language: Seq<char>, i: int)
    requires
        0 <= i < catalog::language_tag(language).len(),
    ensures
        catalog::language_tag(language)[i] != '.',
        catalog::language_tag(language)[i] != '_',
{
    text::lemma_before(language, '.');
}

/// A message that the active locale does not have is its own ID, and so is every message before
/// the first initialisation.
pub proof fn law_missing_message_is_its_id(active: Option<ActiveView>, id: Seq<char>)
    requires
        active is Some ==> !active->0.messages.contains_key(id),
    ensures
        catalog::message(active, id) == id,
{
}

/// The language decides by its first two letters: every variant of Chinese has the Chinese locale,
/// whatever follows, and nothing else has.
pub proof fn law_chinese_variants_share_a_locale(language: Seq<char>)
    ensures
        catalog::language_locale(language) == if text::starts_with(language, "zh"@) {
            "zh-CN"@
        } else {
            "en-US"@
        },
{
    reveal_strlit("zh");
    let zh = "zh"@;
    let code = text::before(language, '.');
    let tag = catalog::language_tag(language);
    text::lemma_before(language, '.');
    if text::starts_with(language, zh) {
        assert(language.subrange(0, 2)[0] == 'z' && language.subrange(0, 2)[1] == 'h');
        assert(language[0] == 'z' && language[1] == 'h');
        if code.len() < 2 {
            assert(language[code.len() as int] == '.');
        }
        assert(tag.subrange(0, 2) =~= zh);
    }
    if text::starts_with(tag, zh) {
        assert(tag.subrange(0, 2)[0] == 'z' && tag.subrange(0, 2)[1] == 'h');
        assert(code[0] == 'z' && code[1] == 'h');
        assert(language.subrange(0, 2) =~= zh);
    }
}

/// Without arguments the message stays as it is.
pub proof fn law_no_arguments_change_nothing(message: Seq<char>)
    ensures
        catalog::substituted(message, Seq::empty()) == message,
{
}

/// Arguments apply in order: what the earlier ones leave is what the later ones work on.
pub proof fn law_arguments_apply_in_order(
    message: Seq<char>,
    earlier: Seq<(&str, &str)>,
    later: Seq<(&str, &str)>,
)
    ensures
        catalog::substituted(message, earlier + later) == catalog::substituted(
            catalog::substituted(message, earlier),
            later,
        ),
    decreases later.len(),
{
    if later.len() == 0 {
        assert(earlier + later =~= earlier);
    } else {
        assert((earlier + later).drop_last() =~= earlier + later.drop_last());
        assert((earlier + later).last() == later.last());
        law_arguments_apply_in_order(message, earlier, later.drop_last());
    }
}

/// A message without the placeholder of any argument stays as it is.
pub proof fn law_unused_arguments_change_nothing(message: Seq<char>, args: Seq<(&str, &str)>)
    requires
        forall|i: int, at: int|
            0 <= i < args.len() ==> !#[trigger] text::occurs_at(
                message,
                catalog::placeholder(args[i].0@),
                at,
            ),
    ensures
        catalog::substituted(message, args) == message,
    decreases args.len(),
{
    if args.len() > 0 {
        let last = args.len() - 1;
        assert forall|i: int, at: int| 0 <= i < last implies !#[trigger] text::occurs_at(
            message,
            catalog::placeholder(args.drop_last()[i].0@),
            at,
        ) by {
            assert(args.drop_last()[i] == args[i]);
        }
        law_unused_arguments_change_nothing(message, args.drop_last());
        assert(args[last] == args.last());
        text::lemma_replace_nothing(message, catalog::placeholder(args.last().0@), args.last().1@);
    }
}

/// One argument replaces every occurrence of its placeholder and nothing else: the message is
/// made of pieces without the placeholder, with the placeholder between them, and the result of
/// the same pieces with the value between them.
pub proof fn law_every_placeholder_is_replaced(message: Seq<char>, key: &str, value: &str)
    ensures
        ({
            let pattern = catalog::placeholder(key@);
            let pieces = text::pieces(message, pattern);
            &&& text::join(pieces, pattern) == message
            &&& text::join(pieces, value@) == catalog::substituted(message, seq![(key, value)])
            &&& forall|i: int, at: int|
                0 <= i < pieces.len() ==> !#[trigger] text::occurs_at(pieces[i], pattern, at)
        }),
{
    let pattern = catalog::placeholder(key@);
    let args = seq![(key, value)];
    assert(args.drop_last() =~= Seq::<(&str, &str)>::empty());
    assert(catalog::substituted(message, args.drop_last()) == message);
    text::law_replacement_keeps_the_pieces(message, pattern, value@);
}

/// An initialisation of a fresh subsystem holds what it was given; of an initialised one it changes
/// nothing.
pub proof fn law_initialisation_holds_what_it_was_given(
    locale: Seq<char>,
    messages: Map<Seq<char>, Seq<char>>,
    active: ActiveView,
)
    ensures
        catalog::initialised(None, locale, messages) is Some,
        catalog::initialised(None, locale, messages)->0.locale == locale,
        catalog::initialised(None, locale, messages)->0.messages == messages,
        catalog::initialised(Some(active), locale, messages) == Some(active),
{
}

/// The active locale is the one that is held, and `en-US` before there is one.
pub proof fn law_active_locale_is_the_held_one(active: ActiveView)
    ensures
        catalog::locale_code(Some(active)) == active.locale,
        catalog::locale_code(None) == seq!['e', 'n', '-', 'U', 'S'],
{
    reveal_strlit("en-US");
    assert("en-US"@ =~= seq!['e', 'n', '-', 'U', 'S']);
}

/// A message that is held is looked up as it is held; any other is its ID.
pub proof fn law_lookup_finds_what_is_held(active: ActiveView, id: Seq<char>)
    ensures
        active.messages.contains_key(id) ==> catalog::message(Some(active), id)
            == active.messages[id],
        !active.messages.contains_key(id) ==> catalog::message(Some(active), id) == id,
        catalog::message(None, id) == id,
{
}

/// A lookup gives back the messages that were installed: the text of the last message with the ID,
/// character for character, and the ID itself where no message has it.
pub proof fn law_lookup_gives_back_the_installed_messages(
    locale: Seq<char>,
    messages: Seq<(String, String)>,
    i: int,
    id: Seq<char>,
)
    ensures
        ({
            let active = catalog::initialised(None, locale, bundle::message_map(messages));
            &&& 0 <= i < messages.len() && (forall|j: int|
                i < j < messages.len() ==> (#[trigger] messages[j]).0@ != messages[i].0@)
                ==> catalog::message(active, messages[i].0@) == messages[i].1@
            &&& (forall|j: int| 0 <= j < messages.len() ==> (#[trigger] messages[j]).0@ != id)
                ==> catalog::message(active, id) == id
        }),
{
    if 0 <= i < messages.len() && (forall|j: int|
        i < j < messages.len() ==> (#[trigger] messages[j]).0@ != messages[i].0@) {
        bundle::law_last_message_of_an_id_counts(messages, i);
    }
    if forall|j: int| 0 <= j < messages.len() ==> (#[trigger] messages[j]).0@ != id {
        bundle::law_no_other_id_is_held(messages, id);
    }
}

/// The locale `zh-CN` reads the Chinese bundle and every other locale the English one.
pub proof fn law_bundle_of_a_locale(locale: Seq<char>)
    ensures
        locale == seq!['z', 'h', '-', 'C', 'N'] ==> catalog::bundle_text(locale) == bundles::ZH_CN@
            && catalog::bundle_messages(locale) == bundle::json_string_map(bundles::ZH_CN@),
        locale != seq!['z', 'h', '-', 'C', 'N'] ==> catalog::bundle_text(locale) == bundles::EN_US@
            && catalog::bundle_messages(locale) == bundle::json_string_map(bundles::EN_US@),
{
    reveal_strlit("zh-CN");
    assert("zh-CN"@ =~= seq!['z', 'h', '-', 'C', 'N']);
}

/// A language code in the form of a locale code is what stands before the first dot, with a hyphen
/// for each underscore and every other character as it is.
pub proof fn law_language_tag_keeps_all_but_underscores(head: Seq<char>, tail: Seq<char>, i: int)
    requires
        forall|k: int| 0 <= k < head.len() ==> #[trigger] head[k] != '.',
        tail.len() == 0 || tail[0] == '.',
    ensures
        catalog::language_tag(head + tail).len() == head.len(),
        0 <= i < head.len() && head[i] == '_' ==> catalog::language_tag(head + tail)[i] == '-',
        0 <= i < head.len() && head[i] != '_' ==> catalog::language_tag(head + tail)[i] == head[i],
{
    text::law_before_cuts_at_the_first(head, '.', tail.skip(1));
    if tail.len() == 0 {
        assert(head + tail =~= head);
    } else {
        assert(head + tail =~= head + seq!['.'] + tail.skip(1));
    }
}

/// The environment decides the locale. `CODEX_LOCALE` is the language where it is set, `LANG` where
/// it alone is set, and there is none where neither is; and the locale is `zh-CN` for a language
/// that begins with `z` and `h`, and `en-US` for any other.
pub proof fn law_environment_decides_the_locale(codex_locale: Option<&str>, lang: Option<&str>)
    ensures
        ({
            let language = catalog::requested_language(codex_locale, lang);
            let locale = catalog::language_locale(language);
            let zh = |value: Seq<char>| value.len() >= 2 && value[0] == 'z' && value[1] == 'h';
            &&& codex_locale is Some ==> language == codex_locale->0@
            &&& codex_locale is None && lang is Some ==> language == lang->0@
            &&& codex_locale is None && lang is None ==> language.len() == 0
            &&& codex_locale is Some ==> (locale == seq!['z', 'h', '-', 'C', 'N'] <==> zh(
                codex_locale->0@,
            ))
            &&& codex_locale is None && lang is Some ==> (locale == seq!['z', 'h', '-', 'C', 'N']
                <==> zh(lang->0@))
            &&& locale == seq!['z', 'h', '-', 'C', 'N'] || locale == seq!['e', 'n', '-', 'U', 'S']
            &&& codex_locale is None && lang is None ==> locale == seq!['e', 'n', '-', 'U', 'S']
        }),
{
    law_language_decides_by_two_letters(catalog::requested_language(codex_locale, lang));
    assert(seq!['z', 'h', '-', 'C', 'N'][0] == 'z' && seq!['e', 'n', '-', 'U', 'S'][0] == 'e');
}

/// A language that begins with `z` and `h` has the locale `zh-CN`, and any other has `en-US`.
pub proof fn law_language_decides_by_two_letters(language: Seq<char>)
    ensures
        language.len() >= 2 && language[0] == 'z' && language[1] == 'h' ==> catalog::language_locale(
            language,
        ) == seq!['z', 'h', '-', 'C', 'N'],
        !(language.len() >= 2 && language[0] == 'z' && language[1] == 'h')
            ==> catalog::language_locale(language) == seq!['e', 'n', '-', 'U', 'S'],
{
    law_chinese_variants_share_a_locale(language);
    reveal_strlit("zh");
    reveal_strlit("zh-CN");
    reveal_strlit("en-US");
    assert("zh-CN"@ =~= seq!['z', 'h', '-', 'C', 'N']);
    assert("en-US"@ =~= seq!['e', 'n', '-', 'U', 'S']);
    text::law_occurrence_is_the_pattern(language, "zh"@, 0);
    assert("zh"@[0] == 'z' && "zh"@[1] == 'h' && "zh"@.len() == 2);
}

/// The placeholder of a key is an opening brace, the characters of the key, and a closing brace.
pub proof fn law_placeholder_is_the_key_in_braces(key: Seq<char>, i: int)
    ensures
        catalog::placeholder(key).len() == key.len() + 2,
        catalog::placeholder(key)[0] == '{',
        catalog::placeholder(key)[key.len() as int + 1] == '}',
        0 <= i < key.len() ==> catalog::placeholder(key)[i + 1] == key[i],
{
}

/// One argument turns its first placeholder into its value, leaves what stands before it as it is,
/// and treats what follows in the same way. The placeholder is the key in braces.
pub proof fn law_argument_replaces_its_first_placeholder(
    front: Seq<char>,
    key: &str,
    value: &str,
    rest: Seq<char>,
)
    requires
        forall|at: int|
            0 <= at < front.len() ==> #[trigger] (front + (seq!['{'] + key@ + seq!['}'])
                + rest).subrange(at, at + key@.len() + 2) != seq!['{'] + key@ + seq!['}'],
    ensures
        catalog::substituted(
            front + (seq!['{'] + key@ + seq!['}']) + rest,
            seq![(key, value)],
        ) == front + value@ + catalog::substituted(rest, seq![(key, value)]),
{
    let pattern = seq!['{'] + key@ + seq!['}'];
    let n = pattern.len() as int;
    let message = front + pattern + rest;
    let first = front.len() as int;
    lemma_placeholder(key@);
    lemma_one_argument(message, key, value);
    lemma_one_argument(rest, key, value);
    assert(message.subrange(first, first + n) =~= pattern);
    assert forall|at: int| 0 <= at < first implies #[trigger] message.subrange(at, at + n)
        != pattern by {
        assert(message.subrange(at, at + key@.len() + 2) != pattern);
    }
    text::law_first_occurrence_is_replaced(message, pattern, value@, first);
    assert(message.take(first) =~= front);
    assert(message.skip(first + n) =~= rest);
}

/// One argument whose key stands nowhere in braces changes nothing.
pub proof fn law_argument_without_placeholder_changes_nothing(
    message: Seq<char>,
    key: &str,
    value: &str,
)
    requires
        forall|at: int|
            0 <= at <= message.len() - key@.len() - 2 ==> #[trigger] message.subrange(
                at,
                at + key@.len() + 2,
            ) != seq!['{'] + key@ + seq!['}'],
    ensures
        catalog::substituted(message, seq![(key, value)]) == message,
{
    let pattern = seq!['{'] + key@ + seq!['}'];
    lemma_placeholder(key@);
    lemma_one_argument(message, key, value);
    assert forall|at: int| 0 <= at <= message.len() - pattern.len() implies #[trigger] message.subrange(
        at,
        at + pattern.len(),
    ) != pattern by {
        assert(message.subrange(at, at + key@.len() + 2) != pattern);
    }
    text::law_text_without_the_pattern_is_kept(message, pattern, value@);
}

/// A key in braces between two parts without an opening brace gives way to its value, and the parts
/// are kept.
pub proof fn law_argument_fills_its_place(
    front: Seq<char>,
    key: &str,
    value: &str,
    rest: Seq<char>,
)
    requires
        forall|i: int| 0 <= i < front.len() ==> #[trigger] front[i] != '{',
        forall|i: int| 0 <= i < rest.len() ==> #[trigger] rest[i] != '{',
    ensures
        catalog::substituted(
            front + (seq!['{'] + key@ + seq!['}']) + rest,
            seq![(key, value)],
        ) == front + value@ + rest,
{
    let pattern = seq!['{'] + key@ + seq!['}'];
    let message = front + pattern + rest;
    assert(pattern[0] == '{');
    assert forall|at: int| 0 <= at < front.len() implies #[trigger] message.subrange(
        at,
        at + key@.len() + 2,
    ) != pattern by {
        assert(message.subrange(at, at + key@.len() + 2)[0] == front[at]);
    }
    law_argument_replaces_its_first_placeholder(front, key, value, rest);
    assert forall|at: int|
        0 <= at <= rest.len() - key@.len() - 2 implies #[trigger] rest.subrange(
        at,
        at + key@.len() + 2,
    ) != pattern by {
        assert(rest.subrange(at, at + key@.len() + 2)[0] == rest[at]);
    }
    law_argument_without_placeholder_changes_nothing(rest, key, value);
}

proof fn lemma_placeholder(key: Seq<char>)
    ensures
        catalog::placeholder(key) == seq!['{'] + key + seq!['}'],
{
}

proof fn lemma_one_argument(message: Seq<char>, key: &str, value: &str)
    ensures
        catalog::substituted(message, seq![(key, value)]) == text::replace_all(
            message,
            catalog::placeholder(key@),
            value@,
        ),
{
    let args = seq![(key, value)];
    assert(args.drop_last() =~= Seq::<(&str, &str)>::empty());
    assert(catalog::substituted(message, args.drop_last()) == message);
    assert(args.last() == (key, value));
}

} // verus!
