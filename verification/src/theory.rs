//! What holds of every decoded file, proved from the definitions.

use vstd::prelude::*;
use crate::config::{first_serving, scope_prefix, serves, NpmrcView, ScopeView};
use crate::decode::{
    acceptable, consistent, decoded, distinct_keys, extras, first_offence, first_with_key, is_boolean, is_flag, is_known, is_scoped,
    known_keys, name_end, offence, promoted, record, scope_name, scope_of, setting, states, upsert, value_at,
    DecodeError,
};
use crate::ini::LineView;

verus! {

/// A file decodes to a record exactly where no line is at fault, and then to
/// the record of its lines.
pub proof fn decodes_where_acceptable(lines: Seq<LineView>)
    ensures
        decoded(lines) is Ok <==> acceptable(lines),
        acceptable(lines) ==> decoded(lines) == Ok::<NpmrcView, DecodeError>(record(lines)),
{
}

/// In a file that decodes, the line that states a known key is the only one
/// that does, so the key's setting is the value on that line.
pub proof fn known_key_has_its_stated_value(lines: Seq<LineView>, i: int, key: Seq<char>)
    requires
        decoded(lines) is Ok,
        states(lines, i, key),
        is_known(key),
    ensures
        setting(lines, key) == value_at(lines, i),
{
    let c = choose|k: int| states(lines, k, key);
    assert(states(lines, c, key));
    if c < i {
        assert(offence(lines, i) is Some);
    } else if i < c {
        assert(offence(lines, c) is Some);
    }
}

/// Each text field of the decoded record equals the value that the file
/// states for its key.
pub proof fn text_fields_equal_stated_values(lines: Seq<LineView>, i: int, config: NpmrcView)
    requires
        decoded(lines) == Ok::<NpmrcView, DecodeError>(config),
        0 <= i < lines.len(),
    ensures
        states(lines, i, "access"@) ==> config.access == value_at(lines, i),
        states(lines, i, "loglevel"@) ==> config.loglevel == value_at(lines, i),
        states(lines, i, "registry"@) ==> config.registry == value_at(lines, i),
        states(lines, i, "init-author-name"@) ==> config.init_author_name == value_at(lines, i),
        states(lines, i, "init-author-email"@) ==> config.init_author_email == value_at(lines, i),
{
    assert(known_keys()[0] == "access"@);
    assert(known_keys()[1] == "loglevel"@);
    assert(known_keys()[4] == "registry"@);
    assert(known_keys()[6] == "init-author-name"@);
    assert(known_keys()[7] == "init-author-email"@);
    if states(lines, i, "access"@) {
        known_key_has_its_stated_value(lines, i, "access"@);
    }
    if states(lines, i, "loglevel"@) {
        known_key_has_its_stated_value(lines, i, "loglevel"@);
    }
    if states(lines, i, "registry"@) {
        known_key_has_its_stated_value(lines, i, "registry"@);
    }
    if states(lines, i, "init-author-name"@) {
        known_key_has_its_stated_value(lines, i, "init-author-name"@);
    }
    if states(lines, i, "init-author-email"@) {
        known_key_has_its_stated_value(lines, i, "init-author-email"@);
    }
}

/// Each yes-or-no field of the decoded record is true where the file states
/// `true` for its key and false where it states `false`; the file states
/// nothing else for such a key.
pub proof fn flag_fields_equal_stated_values(lines: Seq<LineView>, i: int, config: NpmrcView)
    requires
        decoded(lines) == Ok::<NpmrcView, DecodeError>(config),
        0 <= i < lines.len(),
    ensures
        states(lines, i, "progress"@) ==> is_boolean(value_at(lines, i)) && config.progress == (value_at(
            lines,
            i,
        ) == "true"@),
        states(lines, i, "package-lock"@) ==> is_boolean(value_at(lines, i)) && config.package_lock == (
        value_at(lines, i) == "true"@),
        states(lines, i, "save"@) ==> is_boolean(value_at(lines, i)) && config.save == (value_at(lines, i)
            == "true"@),
        "true"@ != "false"@,
{
    reveal_strlit("true");
    reveal_strlit("false");
    assert("true"@.len() == 4 && "false"@.len() == 5);
    assert(known_keys()[2] == "progress"@);
    assert(known_keys()[3] == "package-lock"@);
    assert(known_keys()[5] == "save"@);
    assert(offence(lines, i) is None);
    if states(lines, i, "progress"@) {
        known_key_has_its_stated_value(lines, i, "progress"@);
    }
    if states(lines, i, "package-lock"@) {
        known_key_has_its_stated_value(lines, i, "package-lock"@);
    }
    if states(lines, i, "save"@) {
        known_key_has_its_stated_value(lines, i, "save"@);
    }
}

/// A file that states anything but `true` or `false` for a yes-or-no key
/// does not decode.
pub proof fn other_text_for_flag_fails(lines: Seq<LineView>, i: int, key: Seq<char>)
    requires
        states(lines, i, key),
        is_flag(key),
        !is_boolean(value_at(lines, i)),
    ensures
        decoded(lines) is Err,
{
    assert(known_keys()[2] == "progress"@);
    assert(known_keys()[3] == "package-lock"@);
    assert(known_keys()[5] == "save"@);
    assert(offence(lines, i) is Some);
}

/// A key that no line states has the default: the empty text, which as a
/// yes-or-no value is false.
pub proof fn absent_key_has_default(lines: Seq<LineView>, key: Seq<char>)
    requires
        forall|i: int| !states(lines, i, key),
    ensures
        setting(lines, key) == Seq::<char>::empty(),
        setting(lines, key) != "true"@,
{
    reveal_strlit("true");
    assert("true"@.len() == 4);
    assert(Seq::<char>::empty().len() == 0);
}

/// Whether one of the first `n` lines states `key`.
pub open spec fn stated_in(lines: Seq<LineView>, n: int, key: Seq<char>) -> bool {
    exists|j: int| 0 <= j < n && states(lines, j, key)
}

/// Every key among the extras of the first `n` lines is stated by one of
/// those lines.
pub proof fn extras_keys_are_stated(lines: Seq<LineView>, n: int)
    requires
        0 <= n <= lines.len(),
    ensures
        forall|p: int|
            0 <= p < extras(lines, n).len() ==> stated_in(lines, n, (#[trigger] extras(lines, n)[p]).0),
    decreases n,
{
    if n > 0 {
        extras_keys_are_stated(lines, n - 1);
        let before = extras(lines, n - 1);
        let now = extras(lines, n);
        assert forall|p: int| 0 <= p < now.len() implies stated_in(lines, n, (#[trigger] now[p]).0) by {
            let changed = match lines[n - 1] {
                LineView::Value(key, value) => !is_known(key) && now == upsert(before, key, value) && (
                if exists|c: int| first_with_key(before, key, c) {
                    p == choose|c: int| first_with_key(before, key, c)
                } else {
                    p == before.len()
                }),
                _ => false,
            };
            if changed {
                assert(states(lines, n - 1, now[p].0));
            } else {
                assert(p < before.len() && now[p] == before[p]);
                assert(stated_in(lines, n - 1, before[p].0));
                let j = choose|j: int| 0 <= j < n - 1 && states(lines, j, before[p].0);
                assert(0 <= j < n && states(lines, j, now[p].0));
            }
        }
    } else {
        assert(extras(lines, n) =~= Seq::empty());
    }
}

/// A file in which no key begins with `@` declares no scopes.
pub proof fn no_scoped_key_no_scopes(lines: Seq<LineView>)
    requires
        forall|i: int, key: Seq<char>| states(lines, i, key) ==> !is_scoped(key),
    ensures
        record(lines).scopes == Seq::<ScopeView>::empty(),
{
    let other = extras(lines, lines.len() as int);
    let pick = |pair: (Seq<char>, Seq<char>)| scope_of(pair);
    let scopes = other.filter_map(pick);
    extras_keys_are_stated(lines, lines.len() as int);
    if scopes.len() > 0 {
        assert(scopes.contains(scopes[0]));
        other.lemma_filter_map_contains(pick, scopes[0]);
        let found = choose|t: (Seq<char>, Seq<char>)| #[trigger]
            other.contains(t) && pick(t) == Some(scopes[0]);
        let p = choose|p: int| 0 <= p < other.len() && other[p] == found;
        assert(is_scoped(other[p].0));
        assert(stated_in(lines, lines.len() as int, other[p].0));
        let j = choose|j: int| 0 <= j < lines.len() && states(lines, j, other[p].0);
        assert(states(lines, j, other[p].0));
    }
    assert(scopes =~= Seq::<ScopeView>::empty());
}

/// After `key` is set to `value`, the pairs hold that pair.
pub proof fn upsert_holds_pair(pairs: Seq<(Seq<char>, Seq<char>)>, key: Seq<char>, value: Seq<char>)
    ensures
        upsert(pairs, key, value).contains((key, value)),
{
    let after = upsert(pairs, key, value);
    if exists|p: int| first_with_key(pairs, key, p) {
        let p = choose|p: int| first_with_key(pairs, key, p);
        assert(after[p] == (key, value));
    } else {
        assert(after[pairs.len() as int] == (key, value));
    }
}

/// Setting one key leaves the pairs of every other key in.
pub proof fn upsert_keeps_other_pairs(
    pairs: Seq<(Seq<char>, Seq<char>)>,
    key: Seq<char>,
    value: Seq<char>,
    pair: (Seq<char>, Seq<char>),
)
    requires
        pairs.contains(pair),
        pair.0 != key,
    ensures
        upsert(pairs, key, value).contains(pair),
{
    let after = upsert(pairs, key, value);
    let q = choose|q: int| 0 <= q < pairs.len() && pairs[q] == pair;
    if exists|p: int| first_with_key(pairs, key, p) {
        let p = choose|p: int| first_with_key(pairs, key, p);
        assert(p != q);
        assert(after[q] == pair);
    } else {
        assert(after[q] == pair);
    }
}

/// The extras of the first `n` lines hold, for a key without a field, the
/// value of the last of those lines that states it.
pub proof fn extras_hold_last_value(lines: Seq<LineView>, n: int, i: int, key: Seq<char>)
    requires
        0 <= i < n <= lines.len(),
        states(lines, i, key),
        !is_known(key),
        forall|j: int| i < j < n ==> !states(lines, j, key),
    ensures
        extras(lines, n).contains((key, value_at(lines, i))),
    decreases n,
{
    let before = extras(lines, n - 1);
    if i == n - 1 {
        upsert_holds_pair(before, key, value_at(lines, i));
    } else {
        extras_hold_last_value(lines, n - 1, i, key);
        assert(!states(lines, n - 1, key));
        match lines[n - 1] {
            LineView::Value(k, v) => {
                if !is_known(k) {
                    upsert_keeps_other_pairs(before, k, v, (key, value_at(lines, i)));
                }
            },
            _ => {},
        }
    }
}

/// A pair that declares a scope has its scope among the promoted ones.
pub proof fn promoted_holds_scope(pairs: Seq<(Seq<char>, Seq<char>)>, pair: (Seq<char>, Seq<char>))
    requires
        pairs.contains(pair),
        is_scoped(pair.0),
    ensures
        promoted(pairs).contains(scope_of(pair).unwrap()),
    decreases pairs.len(),
{
    let pick = |pair: (Seq<char>, Seq<char>)| scope_of(pair);
    let q = choose|q: int| 0 <= q < pairs.len() && pairs[q] == pair;
    let rest = pairs.drop_last();
    let out = pairs.filter_map(pick);
    if q == pairs.len() - 1 {
        assert(out == rest.filter_map(pick) + seq![scope_of(pair).unwrap()]);
        assert(out[out.len() - 1] == scope_of(pair).unwrap());
    } else {
        assert(rest[q] == pair);
        promoted_holds_scope(rest, pair);
        let found = rest.filter_map(pick);
        let at = choose|at: int| 0 <= at < found.len() && found[at] == scope_of(pair).unwrap();
        assert(out[at] == scope_of(pair).unwrap());
    }
}

/// No key with a field begins with `@`.
pub proof fn scoped_keys_have_no_field(key: Seq<char>)
    requires
        is_scoped(key),
    ensures
        !is_known(key),
        key != "scopes"@,
{
    reveal_strlit("access");
    reveal_strlit("loglevel");
    reveal_strlit("progress");
    reveal_strlit("package-lock");
    reveal_strlit("registry");
    reveal_strlit("save");
    reveal_strlit("init-author-name");
    reveal_strlit("init-author-email");
    reveal_strlit("scopes");
    let keys = known_keys();
    assert(keys[0][0] == 'a');
    assert(keys[1][0] == 'l');
    assert(keys[2][0] == 'p');
    assert(keys[3][0] == 'p');
    assert(keys[4][0] == 'r');
    assert(keys[5][0] == 's');
    assert(keys[6][0] == 'i');
    assert(keys[7][0] == 'i');
    assert("scopes"@[0] == 's');
    assert forall|s: int| 0 <= s < 8 implies keys[s] != key by {
        assert(keys[s][0] != '@');
    }
}

/// A key that begins with `@` declares a scope: for the last line that
/// states such a key, the decoded record holds the pair of key and value
/// among `other`, and among `scopes` the scope named by the key with the value
/// as its registry.
pub proof fn scoped_key_declares_scope(lines: Seq<LineView>, i: int, key: Seq<char>, config: NpmrcView)
    requires
        decoded(lines) == Ok::<NpmrcView, DecodeError>(config),
        states(lines, i, key),
        is_scoped(key),
        forall|j: int| i < j < lines.len() ==> !states(lines, j, key),
    ensures
        config.other.contains((key, value_at(lines, i))),
        config.scopes.contains(ScopeView { name: scope_name(key), registry_url: value_at(lines, i) }),
{
    scoped_keys_have_no_field(key);
    extras_hold_last_value(lines, lines.len() as int, i, key);
    promoted_holds_scope(config.other, (key, value_at(lines, i)));
}

/// Where neither a scope's name nor `name` holds a `/`, the scope serves the
/// packages `@name/...` exactly if it is called `name`.
pub proof fn scope_serves_by_name(scope: ScopeView, name: Seq<char>, rest: Seq<char>)
    requires
        !scope.name.contains('/'),
        !name.contains('/'),
    ensures
        serves(scope, scope_prefix(name) + rest) <==> scope.name == name,
{
    let package = scope_prefix(name) + rest;
    let prefix = scope_prefix(scope.name);
    if scope.name == name {
        assert(package.subrange(0, prefix.len() as int) =~= prefix);
    }
    if serves(scope, package) {
        let cut = package.subrange(0, prefix.len() as int);
        assert(cut == prefix);
        let a = scope.name.len() as int;
        let b = name.len() as int;
        if a < b {
            assert(cut[a + 1] == package[a + 1]);
            assert(prefix[a + 1] == '/');
            assert(package[a + 1] == name[a]);
            assert(name.contains('/'));
        } else if a > b {
            assert(cut[b + 1] == package[b + 1]);
            assert(package[b + 1] == '/');
            assert(prefix[b + 1] == scope.name[b]);
            assert(scope.name.contains('/'));
        } else {
            assert forall|k: int| 0 <= k < name.len() implies scope.name[k] == name[k] by {
                assert(cut[k + 1] == package[k + 1]);
                assert(prefix[k + 1] == scope.name[k]);
                assert(package[k + 1] == name[k]);
            }
            assert(scope.name =~= name);
        }
    }
}

/// With names free of `/`, the package `@name/...` gets the registry of the
/// first scope called `name`, whatever the general registry is.
pub proof fn scoped_package_gets_named_scope(config: NpmrcView, name: Seq<char>, rest: Seq<char>, i: int)
    requires
        forall|j: int| 0 <= j < config.scopes.len() ==> !(#[trigger] config.scopes[j]).name.contains('/'),
        !name.contains('/'),
        0 <= i < config.scopes.len(),
        config.scopes[i].name == name,
        forall|j: int| 0 <= j < i ==> (#[trigger] config.scopes[j]).name != name,
    ensures
        config.registry_for(scope_prefix(name) + rest) == Some(config.scopes[i].registry_url),
{
    let package = scope_prefix(name) + rest;
    scope_serves_by_name(config.scopes[i], name, rest);
    assert forall|j: int| 0 <= j < i implies !serves(#[trigger] config.scopes[j], package) by {
        scope_serves_by_name(config.scopes[j], name, rest);
    }
    assert(first_serving(config.scopes, package, i));
    crate::config::scoped_package_uses_scope(config, package, i);
}

/// In a file with a line at fault, one such line is the first: the error of
/// a file that does not decode is the fault of that line.
pub proof fn first_fault_exists(lines: Seq<LineView>, i: int)
    requires
        0 <= i < lines.len(),
        offence(lines, i) is Some,
    ensures
        exists|k: int| 0 <= k <= i && first_offence(lines, k),
    decreases i,
{
    if exists|j: int| 0 <= j < i && offence(lines, j) is Some {
        let j = choose|j: int| 0 <= j < i && offence(lines, j) is Some;
        first_fault_exists(lines, j);
    } else {
        assert(first_offence(lines, i));
    }
}

/// The error of a file that does not decode is one that a line of it earns.
pub proof fn error_is_a_fault_of_a_line(lines: Seq<LineView>)
    requires
        !acceptable(lines),
    ensures
        exists|k: int| first_offence(lines, k) && decoded(lines) == Err::<NpmrcView, DecodeError>(
            offence(lines, k).unwrap(),
        ),
{
    let i = choose|i: int| 0 <= i < lines.len() && offence(lines, i) is Some;
    first_fault_exists(lines, i);
    let k = choose|k: int| first_offence(lines, k);
    assert(first_offence(lines, k));
}

/// A key that occurs among the pairs occurs at a first place.
pub proof fn first_place_exists(pairs: Seq<(Seq<char>, Seq<char>)>, key: Seq<char>, p: int)
    requires
        0 <= p < pairs.len(),
        pairs[p].0 == key,
    ensures
        exists|c: int| 0 <= c <= p && first_with_key(pairs, key, c),
    decreases p,
{
    if exists|q: int| 0 <= q < p && pairs[q].0 == key {
        let q = choose|q: int| 0 <= q < p && pairs[q].0 == key;
        first_place_exists(pairs, key, q);
    } else {
        assert(first_with_key(pairs, key, p));
    }
}

/// Setting a key keeps the keys distinct.
pub proof fn upsert_keeps_keys_distinct(pairs: Seq<(Seq<char>, Seq<char>)>, key: Seq<char>, value: Seq<char>)
    requires
        distinct_keys(pairs),
    ensures
        distinct_keys(upsert(pairs, key, value)),
{
    let after = upsert(pairs, key, value);
    if exists|c: int| first_with_key(pairs, key, c) {
        let c = choose|c: int| first_with_key(pairs, key, c);
        assert forall|p: int, q: int| 0 <= p < q < after.len() implies (#[trigger] after[p]).0 != (
        #[trigger] after[q]).0 by {
            assert(after[p].0 == pairs[p].0);
            assert(after[q].0 == pairs[q].0);
        }
    } else {
        assert forall|p: int, q: int| 0 <= p < q < after.len() implies (#[trigger] after[p]).0 != (
        #[trigger] after[q]).0 by {
            if q == pairs.len() {
                if pairs[p].0 == key {
                    first_place_exists(pairs, key, p);
                }
            } else {
                assert(after[p] == pairs[p]);
                assert(after[q] == pairs[q]);
            }
        }
    }
}

/// The extras hold each key once.
pub proof fn extras_have_distinct_keys(lines: Seq<LineView>, n: int)
    requires
        0 <= n <= lines.len(),
    ensures
        distinct_keys(extras(lines, n)),
    decreases n,
{
    if n > 0 {
        extras_have_distinct_keys(lines, n - 1);
        match lines[n - 1] {
            LineView::Value(key, value) => {
                if !is_known(key) {
                    upsert_keeps_keys_distinct(extras(lines, n - 1), key, value);
                }
            },
            _ => {},
        }
    }
}

/// A decoded record is consistent: `other` holds each key once, none of them
/// a key with a field, and `scopes` holds the scopes that `other` declares.
pub proof fn decoded_record_is_consistent(lines: Seq<LineView>, config: NpmrcView)
    requires
        decoded(lines) == Ok::<NpmrcView, DecodeError>(config),
    ensures
        consistent(config),
{
    extras_have_distinct_keys(lines, lines.len() as int);
    extras_keys_have_no_field(lines, lines.len() as int);
}

/// The name of a declared scope is empty only where nothing stands between
/// the `@` and the first `:` of its key.
pub proof fn scope_name_is_empty_only_for_bare_key(key: Seq<char>)
    requires
        is_scoped(key),
    ensures
        scope_name(key).len() == 0 <==> (key.len() == 1 || key[1] == ':'),
{
    first_name_end_exists(key, key.len() as int);
    let e = choose|e: int| name_end(key, e);
    assert(name_end(key, e));
    if key.len() > 1 && key[1] == ':' {
        assert(e == 1);
    }
}

/// The name in a key that begins with `@` ends somewhere at or before `n`,
/// where `n` is the key's end or a `:` in it.
pub proof fn first_name_end_exists(key: Seq<char>, n: int)
    requires
        1 <= n <= key.len(),
        n == key.len() || key[n] == ':',
    ensures
        exists|e: int| name_end(key, e),
    decreases n,
{
    if exists|j: int| 1 <= j < n && key[j] == ':' {
        let j = choose|j: int| 1 <= j < n && key[j] == ':';
        first_name_end_exists(key, j);
    } else {
        assert(name_end(key, n));
    }
}

/// No key among the extras has a field.
pub proof fn extras_keys_have_no_field(lines: Seq<LineView>, n: int)
    requires
        0 <= n <= lines.len(),
    ensures
        forall|p: int| 0 <= p < extras(lines, n).len() ==> !is_known((#[trigger] extras(lines, n)[p]).0),
    decreases n,
{
    if n > 0 {
        extras_keys_have_no_field(lines, n - 1);
        let before = extras(lines, n - 1);
        let now = extras(lines, n);
        assert forall|p: int| 0 <= p < now.len() implies !is_known((#[trigger] now[p]).0) by {
            if p < before.len() && now[p] == before[p] {
            } else {
                match lines[n - 1] {
                    LineView::Value(key, value) => {
                        assert(!is_known(key));
                        assert(now == upsert(before, key, value));
                        assert(now[p].0 == key);
                    },
                    _ => {},
                }
            }
        }
    } else {
        assert(extras(lines, n) =~= Seq::empty());
    }
}

/// The record in which every field has its default: the texts empty, the
/// yes-or-no fields false, no scopes and no other keys.
pub open spec fn defaults() -> NpmrcView {
    NpmrcView {
        access: Seq::empty(),
        loglevel: Seq::empty(),
        progress: false,
        package_lock: false,
        registry: Seq::empty(),
        save: false,
        scopes: Seq::empty(),
        init_author_name: Seq::empty(),
        init_author_email: Seq::empty(),
        other: Seq::empty(),
    }
}

/// Whether every line is blank or a comment.
pub open spec fn blank(lines: Seq<LineView>) -> bool {
    forall|i: int| 0 <= i < lines.len() ==> lines[i] is Empty || lines[i] is Comment
}

/// Blank lines and comments leave no extras.
pub proof fn blank_lines_have_no_extras(lines: Seq<LineView>, n: int)
    requires
        blank(lines),
        0 <= n <= lines.len(),
    ensures
        extras(lines, n) == Seq::<(Seq<char>, Seq<char>)>::empty(),
    decreases n,
{
    if n > 0 {
        blank_lines_have_no_extras(lines, n - 1);
    }
}

/// A file of nothing but blank lines and comments, the empty file among
/// them, decodes to the defaults.
pub proof fn blank_file_decodes_to_defaults(lines: Seq<LineView>)
    requires
        blank(lines),
    ensures
        decoded(lines) == Ok::<NpmrcView, DecodeError>(defaults()),
{
    assert(acceptable(lines));
    blank_lines_have_no_extras(lines, lines.len() as int);
    absent_key_has_default(lines, "access"@);
    absent_key_has_default(lines, "loglevel"@);
    absent_key_has_default(lines, "progress"@);
    absent_key_has_default(lines, "package-lock"@);
    absent_key_has_default(lines, "registry"@);
    absent_key_has_default(lines, "save"@);
    absent_key_has_default(lines, "init-author-name"@);
    absent_key_has_default(lines, "init-author-email"@);
    assert(promoted(Seq::<(Seq<char>, Seq<char>)>::empty()) =~= Seq::<ScopeView>::empty());
    assert(record(lines) == defaults());
}

/// With every field at its default no package has a registry.
pub proof fn defaults_configure_no_registry(package: Seq<char>)
    ensures
        defaults().registry_for(package) is None,
{
}

} // verus!
