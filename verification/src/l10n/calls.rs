//! What calls of the localisation give, in terms of their arguments and of one another.

use vstd::prelude::*;

use super::bundle;
use super::bundle::{read_bundle, Bundle, InvalidBundle};
use super::bundles;
use super::catalog;
use super::catalog::{
    active_locale, init, init_from_env, install, locale_for_language, lookup, lookup_with_args,
    try_init, try_init_from_env, L10n,
};
use super::laws;

verus! {

/// A call of `locale_for_language` gives `zh-CN` for a code that begins with `z` and `h`, and
/// `en-US` for any other.
pub proof fn law_language_call(language: &str, locale: &'static str)
    requires
        call_ensures(locale_for_language, (language,), locale),
    ensures
        language@.len() >= 2 && language@[0] == 'z' && language@[1] == 'h' ==> locale@ == seq![
            'z',
            'h',
            '-',
            'C',
            'N',
        ],
        !(language@.len() >= 2 && language@[0] == 'z' && language@[1] == 'h') ==> locale@ == seq![
            'e',
            'n',
            '-',
            'U',
            'S',
        ],
{
    laws::law_language_decides_by_two_letters(language@);
}

/// Before anything is installed every message is its ID, and the locale is `en-US`.
pub proof fn law_fresh_calls(fresh: L10n, id: &str, found: &str, locale: &str)
    requires
        call_ensures(L10n::new, (), fresh),
        call_ensures(lookup, (&fresh, id), found),
        call_ensures(active_locale, (&fresh,), locale),
    ensures
        found@ == id@,
        locale@ == seq!['e', 'n', '-', 'U', 'S'],
{
    reveal_strlit("en-US");
    assert("en-US"@ =~= seq!['e', 'n', '-', 'U', 'S']);
}

/// What is installed first is looked up: the locale, and for an ID the text of the last message
/// that has it, or the ID itself where none has.
pub proof fn law_install_then_lookup(
    fresh: L10n,
    messages: Vec<(String, String)>,
    made: Bundle,
    locale: &str,
    slot: &mut L10n,
    after: L10n,
    id: &str,
    found: &str,
    active: &str,
    i: int,
)
    requires
        call_ensures(L10n::new, (), fresh),
        call_ensures(Bundle::from_messages, (messages,), made),
        *old(slot) == fresh,
        call_ensures(install, (slot, locale, made), ()),
        *final(slot) == after,
        call_ensures(lookup, (&after, id), found),
        call_ensures(active_locale, (&after,), active),
    ensures
        active@ == locale@,
        0 <= i < messages@.len() && messages@[i].0@ == id@ && (forall|j: int|
            i < j < messages@.len() ==> (#[trigger] messages@[j]).0@ != id@) ==> found@
            == messages@[i].1@,
        (forall|j: int| 0 <= j < messages@.len() ==> (#[trigger] messages@[j]).0@ != id@) ==> found@
            == id@,
{
    laws::law_lookup_gives_back_the_installed_messages(locale@, messages@, i, id@);
}

/// A bundle gives the text of the last message with the ID, and nothing where no message has it.
pub proof fn law_bundle_calls(
    messages: Vec<(String, String)>,
    made: Bundle,
    id: &str,
    found: Option<&str>,
    i: int,
)
    requires
        call_ensures(Bundle::from_messages, (messages,), made),
        call_ensures(Bundle::get, (&made, id), found),
    ensures
        0 <= i < messages@.len() && messages@[i].0@ == id@ && (forall|j: int|
            i < j < messages@.len() ==> (#[trigger] messages@[j]).0@ != id@) ==> found is Some
            && found->0@ == messages@[i].1@,
        (forall|j: int| 0 <= j < messages@.len() ==> (#[trigger] messages@[j]).0@ != id@)
            ==> found is None,
{
    if 0 <= i < messages@.len() && messages@[i].0@ == id@ && (forall|j: int|
        i < j < messages@.len() ==> (#[trigger] messages@[j]).0@ != id@) {
        bundle::law_last_message_of_an_id_counts(messages@, i);
    }
    if forall|j: int| 0 <= j < messages@.len() ==> (#[trigger] messages@[j]).0@ != id@ {
        bundle::law_no_other_id_is_held(messages@, id@);
    }
}

/// A text is read as the messages that its JSON holds, and refused exactly where it holds none.
pub proof fn law_read_call(raw: &str, read: Result<Bundle, InvalidBundle>)
    requires
        call_ensures(read_bundle, (raw,), read),
    ensures
        read is Ok ==> bundle::json_string_map(raw@) == Some(read->Ok_0@),
        read is Err ==> bundle::json_string_map(raw@) is None,
{
}

/// The first `init` holds the locale as it was given, with the messages of the Chinese bundle for
/// `zh-CN` and of the English one for any other; a later one changes nothing. `try_init` does the
/// same, and changes nothing where it returns an error, which is where the bundle is not valid.
pub proof fn law_init_calls(
    slot: &mut L10n,
    tried: &mut L10n,
    locale: &str,
    done: Result<(), InvalidBundle>,
)
    requires
        call_ensures(init, (slot, locale), ()),
        call_ensures(try_init, (tried, locale), done),
    ensures
        ({
            let text = if locale@ == seq!['z', 'h', '-', 'C', 'N'] {
                bundles::ZH_CN@
            } else {
                bundles::EN_US@
            };
            let held = bundle::json_string_map(text);
            &&& old(slot)@ is Some ==> final(slot)@ == old(slot)@
            &&& old(slot)@ is None ==> final(slot)@ is Some && final(slot)@->0.locale == locale@
                && final(slot)@->0.messages == held->0
            &&& done is Ok <==> held is Some
            &&& done is Err || old(tried)@ is Some ==> final(tried)@ == old(tried)@
            &&& done is Ok && old(tried)@ is None ==> final(tried)@ is Some
                && final(tried)@->0.locale == locale@ && final(tried)@->0.messages == held->0
        }),
{
    laws::law_bundle_of_a_locale(locale@);
}

/// `init_from_env` goes by `CODEX_LOCALE` where it is set, by `LANG` where it alone is set, and
/// initialises the first time only, with the Chinese locale where that value begins with `z` and
/// `h` and with the English one elsewhere. `try_init_from_env` does the same, and changes nothing
/// where it returns an error, which is where the bundle is not valid.
pub proof fn law_init_from_env_calls(
    slot: &mut L10n,
    tried: &mut L10n,
    codex_locale: Option<&str>,
    lang: Option<&str>,
    done: Result<(), InvalidBundle>,
)
    requires
        call_ensures(init_from_env, (slot, codex_locale, lang), ()),
        call_ensures(try_init_from_env, (tried, codex_locale, lang), done),
    ensures
        ({
            let value = if codex_locale is Some {
                codex_locale->0@
            } else if lang is Some {
                lang->0@
            } else {
                Seq::<char>::empty()
            };
            let chinese = value.len() >= 2 && value[0] == 'z' && value[1] == 'h';
            let locale = if chinese {
                seq!['z', 'h', '-', 'C', 'N']
            } else {
                seq!['e', 'n', '-', 'U', 'S']
            };
            let held = bundle::json_string_map(
                if chinese {
                    bundles::ZH_CN@
                } else {
                    bundles::EN_US@
                },
            );
            &&& old(slot)@ is Some ==> final(slot)@ == old(slot)@
            &&& old(slot)@ is None ==> final(slot)@ is Some && final(slot)@->0.locale == locale
                && final(slot)@->0.messages == held->0
            &&& done is Ok <==> held is Some
            &&& done is Err || old(tried)@ is Some ==> final(tried)@ == old(tried)@
            &&& done is Ok && old(tried)@ is None ==> final(tried)@ is Some
                && final(tried)@->0.locale == locale && final(tried)@->0.messages == held->0
        }),
{
    let language = catalog::requested_language(codex_locale, lang);
    laws::law_environment_decides_the_locale(codex_locale, lang);
    laws::law_language_decides_by_two_letters(language);
    laws::law_bundle_of_a_locale(catalog::language_locale(language));
    assert(seq!['z', 'h', '-', 'C', 'N'][0] == 'z' && seq!['e', 'n', '-', 'U', 'S'][0] == 'e');
    if codex_locale is None && lang is None {
        assert(language =~= Seq::<char>::empty());
    }
}

/// The locale and the messages that are held are what `active_locale` and `lookup` give.
pub proof fn law_held_messages_are_given(l10n: L10n, id: &str, found: &str, locale: &str)
    requires
        call_ensures(lookup, (&l10n, id), found),
        call_ensures(active_locale, (&l10n,), locale),
        l10n@ is Some,
    ensures
        locale@ == l10n@->0.locale,
        l10n@->0.messages.contains_key(id@) ==> found@ == l10n@->0.messages[id@],
        !l10n@->0.messages.contains_key(id@) ==> found@ == id@,
{
}

/// Without arguments `lookup_with_args` gives what `lookup` gives.
pub proof fn law_lookup_without_arguments(
    l10n: L10n,
    id: &str,
    found: &str,
    args: &[(&str, &str)],
    filled: String,
)
    requires
        call_ensures(lookup, (&l10n, id), found),
        call_ensures(lookup_with_args, (&l10n, id, args), filled),
        args@.len() == 0,
    ensures
        filled@ == found@,
{
}

/// One argument more works on what the others leave. Where the key in braces stands nowhere in it,
/// nothing changes. Where it stands first after `front`, the value takes its place, and what follows
/// is as a message of its own would be with this argument alone.
pub proof fn law_lookup_with_one_argument_more(
    l10n: L10n,
    fresh: L10n,
    id: &str,
    earlier: &[(&str, &str)],
    left: String,
    args: &[(&str, &str)],
    filled: String,
    key: &str,
    value: &str,
    front: Seq<char>,
    rest: &str,
    alone: &[(&str, &str)],
    following: String,
)
    requires
        call_ensures(lookup_with_args, (&l10n, id, earlier), left),
        call_ensures(lookup_with_args, (&l10n, id, args), filled),
        args@ == earlier@.push((key, value)),
        call_ensures(L10n::new, (), fresh),
        alone@ == seq![(key, value)],
        call_ensures(lookup_with_args, (&fresh, rest, alone), following),
    ensures
        ({
            let mark = seq!['{'] + key@ + seq!['}'];
            let size = key@.len() + 2;
            &&& (forall|at: int|
                0 <= at <= left@.len() - size ==> #[trigger] left@.subrange(at, at + size) != mark)
                ==> filled@ == left@
            &&& left@ == front + mark + rest@ && (forall|at: int|
                0 <= at < front.len() ==> #[trigger] left@.subrange(at, at + size) != mark)
                ==> filled@ == front + value@ + following@
        }),
{
    let mark = seq!['{'] + key@ + seq!['}'];
    let size = key@.len() + 2;
    let message = catalog::message(l10n@, id@);
    laws::law_arguments_apply_in_order(message, earlier@, seq![(key, value)]);
    assert(earlier@ + seq![(key, value)] =~= args@);
    assert(filled@ == catalog::substituted(left@, seq![(key, value)]));
    if forall|at: int|
        0 <= at <= left@.len() - size ==> #[trigger] left@.subrange(at, at + size) != mark {
        assert forall|at: int|
            0 <= at <= left@.len() - key@.len() - 2 implies #[trigger] left@.subrange(
            at,
            at + key@.len() + 2,
        ) != mark by {
            assert(left@.subrange(at, at + size) != mark);
        }
        laws::law_argument_without_placeholder_changes_nothing(left@, key, value);
    }
    if left@ == front + mark + rest@ && (forall|at: int|
        0 <= at < front.len() ==> #[trigger] left@.subrange(at, at + size) != mark) {
        assert forall|at: int| 0 <= at < front.len() implies #[trigger] (front + mark
            + rest@).subrange(at, at + key@.len() + 2) != mark by {
            assert(left@.subrange(at, at + size) != mark);
        }
        laws::law_argument_replaces_its_first_placeholder(front, key, value, rest@);
    }
}

} // verus!
