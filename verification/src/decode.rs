//! Decoding the lines of an `.npmrc` file into the settings record.

use vstd::prelude::*;
use vstd::string::*;
use crate::config::{pairs_view, scopes_view, Npmrc, NpmrcView, Scope, ScopeView};
use crate::ini::{ini_lines, lines_view, read_lines, Line, LineView};
use crate::text::{same_text, starts_with_char};
use crate::theory::decoded_record_is_consistent;

verus! {

/// Why a text is not an `.npmrc` file.
#[derive(Debug, Clone, Copy, PartialEq, Eq, Structural)]
pub enum DecodeError {
    /// A line is neither blank, a comment, nor `key = value`.
    Syntax,
    /// A line is a `[section]` header: the file is flat.
    Section,
    /// The key `scopes` is stated: the list of scopes is derived, not given.
    Reserved,
    /// One of the known keys is stated twice.
    Duplicate,
    /// A yes-or-no key has a value other than `true` and `false`.
    Boolean,
}

/// The keys that the record has a field for, in the order of their slots.
pub open spec fn known_keys() -> Seq<Seq<char>> {
    seq![
        "access"@,
        "loglevel"@,
        "progress"@,
        "package-lock"@,
        "registry"@,
        "save"@,
        "init-author-name"@,
        "init-author-email"@,
    ]
}

/// Whether the record has a field for `key`.
pub open spec fn is_known(key: Seq<char>) -> bool {
    exists|s: int| 0 <= s < 8 && #[trigger] known_keys()[s] == key
}

/// Whether `key` is one of the yes-or-no keys.
pub open spec fn is_flag(key: Seq<char>) -> bool {
    key == "progress"@ || key == "package-lock"@ || key == "save"@
}

/// Whether `value` spells a yes or a no.
pub open spec fn is_boolean(value: Seq<char>) -> bool {
    value == "true"@ || value == "false"@
}

/// Whether line `i` is `key = value` for the given key.
pub open spec fn states(lines: Seq<LineView>, i: int, key: Seq<char>) -> bool {
    0 <= i < lines.len() && match lines[i] {
        LineView::Value(k, _) => k == key,
        _ => false,
    }
}

/// The value that line `i` gives to its key; empty where it has no key.
pub open spec fn value_at(lines: Seq<LineView>, i: int) -> Seq<char> {
    match lines[i] {
        LineView::Value(_, v) => v,
        _ => Seq::empty(),
    }
}

/// What is wrong with line `i`, given the lines before it.
pub open spec fn offence(lines: Seq<LineView>, i: int) -> Option<DecodeError> {
    match lines[i] {
        LineView::Malformed => Some(DecodeError::Syntax),
        LineView::Section(_) => Some(DecodeError::Section),
        LineView::Value(key, value) => {
            if key == "scopes"@ {
                Some(DecodeError::Reserved)
            } else if is_known(key) && exists|j: int| 0 <= j < i && states(lines, j, key) {
                Some(DecodeError::Duplicate)
            } else if is_flag(key) && !is_boolean(value) {
                Some(DecodeError::Boolean)
            } else {
                None
            }
        },
        _ => None,
    }
}

/// Whether no line is at fault.
pub open spec fn acceptable(lines: Seq<LineView>) -> bool {
    forall|i: int| 0 <= i < lines.len() ==> offence(lines, i) is None
}

/// Whether line `i` is the first one at fault.
pub open spec fn first_offence(lines: Seq<LineView>, i: int) -> bool {
    &&& 0 <= i < lines.len()
    &&& offence(lines, i) is Some
    &&& forall|j: int| 0 <= j < i ==> offence(lines, j) is None
}

/// The value stated for `key`; empty where no line states it.
pub open spec fn setting(lines: Seq<LineView>, key: Seq<char>) -> Seq<char> {
    if exists|i: int| states(lines, i, key) {
        value_at(lines, choose|i: int| states(lines, i, key))
    } else {
        Seq::empty()
    }
}

/// Whether pair `p` is the first one with the given key.
pub open spec fn first_with_key(pairs: Seq<(Seq<char>, Seq<char>)>, key: Seq<char>, p: int) -> bool {
    &&& 0 <= p < pairs.len()
    &&& pairs[p].0 == key
    &&& forall|q: int| 0 <= q < p ==> (#[trigger] pairs[q]).0 != key
}

/// `pairs` with `key` set to `value`: in the key's place where it occurs, at
/// the end where it does not.
pub open spec fn upsert(pairs: Seq<(Seq<char>, Seq<char>)>, key: Seq<char>, value: Seq<char>) -> Seq<
    (Seq<char>, Seq<char>),
> {
    if exists|p: int| first_with_key(pairs, key, p) {
        pairs.update(choose|p: int| first_with_key(pairs, key, p), (key, value))
    } else {
        pairs.push((key, value))
    }
}

/// The pairs that the first `n` lines state for keys without a field: each
/// key once, where it first appeared, with the value stated last.
pub open spec fn extras(lines: Seq<LineView>, n: int) -> Seq<(Seq<char>, Seq<char>)>
    decreases n,
{
    if n <= 0 {
        Seq::empty()
    } else {
        let before = extras(lines, n - 1);
        match lines[n - 1] {
            LineView::Value(key, value) => if is_known(key) {
                before
            } else {
                upsert(before, key, value)
            },
            _ => before,
        }
    }
}

/// Whether `key` declares a scope: it begins with `@`.
pub open spec fn is_scoped(key: Seq<char>) -> bool {
    key.len() > 0 && key[0] == '@'
}

/// Whether the scope's name in `key` ends before position `e`: at the first
/// `:`, or at the end of a key without one.
pub open spec fn name_end(key: Seq<char>, e: int) -> bool {
    &&& 1 <= e <= key.len()
    &&& e == key.len() || key[e] == ':'
    &&& forall|j: int| 1 <= j < e ==> key[j] != ':'
}

/// The name of the scope that `key` declares: what stands between the `@` and
/// the first `:`.
pub open spec fn scope_name(key: Seq<char>) -> Seq<char> {
    key.subrange(1, choose|e: int| name_end(key, e))
}

/// The scope that a pair declares, if it declares one.
pub open spec fn scope_of(pair: (Seq<char>, Seq<char>)) -> Option<ScopeView> {
    if is_scoped(pair.0) {
        Some(ScopeView { name: scope_name(pair.0), registry_url: pair.1 })
    } else {
        None
    }
}

/// The scopes that `pairs` declare, in the order of the pairs.
pub open spec fn promoted(pairs: Seq<(Seq<char>, Seq<char>)>) -> Seq<ScopeView> {
    pairs.filter_map(|pair: (Seq<char>, Seq<char>)| scope_of(pair))
}

/// Whether no two of the pairs have the same key.
pub open spec fn distinct_keys(pairs: Seq<(Seq<char>, Seq<char>)>) -> bool {
    forall|p: int, q: int| 0 <= p < q < pairs.len() ==> (#[trigger] pairs[p]).0 != (#[trigger] pairs[q]).0
}

/// Whether a record is as decoding leaves it: `other` holds each key once,
/// none of them a key with a field, and `scopes` holds the scopes that
/// `other` declares.
pub open spec fn consistent(config: NpmrcView) -> bool {
    &&& distinct_keys(config.other)
    &&& forall|p: int| 0 <= p < config.other.len() ==> !is_known((#[trigger] config.other[p]).0)
    &&& config.scopes == promoted(config.other)
}

/// The record that acceptable lines decode to.
pub open spec fn record(lines: Seq<LineView>) -> NpmrcView {
    let other = extras(lines, lines.len() as int);
    NpmrcView {
        access: setting(lines, "access"@),
        loglevel: setting(lines, "loglevel"@),
        progress: setting(lines, "progress"@) == "true"@,
        package_lock: setting(lines, "package-lock"@) == "true"@,
        registry: setting(lines, "registry"@),
        save: setting(lines, "save"@) == "true"@,
        scopes: promoted(other),
        init_author_name: setting(lines, "init-author-name"@),
        init_author_email: setting(lines, "init-author-email"@),
        other,
    }
}

/// What the lines of a file decode to: the record where no line is at fault,
/// else the fault of the first line that has one.
pub open spec fn decoded(lines: Seq<LineView>) -> Result<NpmrcView, DecodeError> {
    if acceptable(lines) {
        Ok(record(lines))
    } else {
        Err(offence(lines, choose|i: int| first_offence(lines, i)).unwrap())
    }
}

/// The known keys differ from one another.
pub proof fn known_keys_differ()
    ensures
        forall|s: int, t: int| 0 <= s < t < 8 ==> known_keys()[s] != known_keys()[t],
{
    reveal_strlit("access");
    reveal_strlit("loglevel");
    reveal_strlit("progress");
    reveal_strlit("package-lock");
    reveal_strlit("registry");
    reveal_strlit("save");
    reveal_strlit("init-author-name");
    reveal_strlit("init-author-email");
    let keys = known_keys();
    assert(keys[0].len() == 6);
    assert(keys[1].len() == 8 && keys[1][0] == 'l');
    assert(keys[2].len() == 8 && keys[2][0] == 'p');
    assert(keys[3].len() == 12);
    assert(keys[4].len() == 8 && keys[4][0] == 'r');
    assert(keys[5].len() == 4);
    assert(keys[6].len() == 16);
    assert(keys[7].len() == 17);
    assert forall|s: int, t: int| 0 <= s < t < 8 implies keys[s] != keys[t] by {
        if keys[s].len() == keys[t].len() {
            assert(keys[s][0] != keys[t][0]);
        }
    }
}

/// The slot of `key` among the known keys.
fn known_slot(key: &String) -> (r: Option<usize>)
    ensures
        match r {
            Some(s) => s < 8 && known_keys()[s as int] == key@,
            None => !is_known(key@),
        },
{
    if same_text(key, "access") {
        Some(0)
    } else if same_text(key, "loglevel") {
        Some(1)
    } else if same_text(key, "progress") {
        Some(2)
    } else if same_text(key, "package-lock") {
        Some(3)
    } else if same_text(key, "registry") {
        Some(4)
    } else if same_text(key, "save") {
        Some(5)
    } else if same_text(key, "init-author-name") {
        Some(6)
    } else if same_text(key, "init-author-email") {
        Some(7)
    } else {
        None
    }
}

/// Sets `key` to `value` in `pairs`: in the key's place where it occurs, at
/// the end where it does not.
fn put(pairs: &mut Vec<(String, String)>, key: String, value: String)
    ensures
        pairs_view(final(pairs)@) == upsert(pairs_view(old(pairs)@), key@, value@),
{
    let ghost before = pairs_view(pairs@);
    let mut p: usize = 0;
    while p < pairs.len()
        invariant
            p <= pairs.len(),
            pairs_view(pairs@) == before,
            *pairs == *old(pairs),
            forall|q: int| 0 <= q < p ==> (#[trigger] before[q]).0 != key@,
        decreases pairs.len() - p,
    {
        if same_text(&pairs[p].0, key.as_str()) {
            proof {
                assert(first_with_key(before, key@, p as int));
                let c = choose|q: int| first_with_key(before, key@, q);
                assert(c == p);
            }
            pairs.set(p, (key, value));
            assert(pairs_view(pairs@) =~= before.update(p as int, (key@, value@)));
            return ;
        }
        p += 1;
    }
    pairs.push((key, value));
    assert(pairs_view(pairs@) =~= before.push((key@, value@)));
}

/// The name of the scope that `key` declares.
fn name_of_scope(key: &str) -> (name: String)
    requires
        is_scoped(key@),
    ensures
        name@ == scope_name(key@),
{
    let n: usize = key.unicode_len();
    let mut e: usize = 1;
    while e < n && key.get_char(e) != ':'
        invariant
            1 <= e <= n,
            n == key@.len(),
            forall|j: int| 1 <= j < e ==> key@[j] != ':',
        decreases n - e,
    {
        e += 1;
    }
    proof {
        assert(name_end(key@, e as int));
        let c = choose|k: int| name_end(key@, k);
        assert(c == e);
    }
    String::from_str(key.substring_char(1, e))
}

/// The scopes that `pairs` declare, in the order of the pairs.
fn promote(pairs: &Vec<(String, String)>) -> (scopes: Vec<Scope>)
    ensures
        scopes_view(scopes@) == promoted(pairs_view(pairs@)),
{
    let ghost all = pairs_view(pairs@);
    let ghost pick = |pair: (Seq<char>, Seq<char>)| scope_of(pair);
    let mut scopes: Vec<Scope> = Vec::new();
    let mut i: usize = 0;
    assert(scopes_view(scopes@) =~= all.take(0).filter_map(pick));
    while i < pairs.len()
        invariant
            i <= pairs.len(),
            all == pairs_view(pairs@),
            pick == |pair: (Seq<char>, Seq<char>)| scope_of(pair),
            scopes_view(scopes@) == all.take(i as int).filter_map(pick),
        decreases pairs.len() - i,
    {
        let ghost done = scopes_view(scopes@);
        proof {
            assert(all.take(i + 1).drop_last() =~= all.take(i as int));
            assert(all.take(i + 1).last() == all[i as int]);
        }
        if starts_with_char(pairs[i].0.as_str(), '@') {
            let scope = Scope {
                name: name_of_scope(pairs[i].0.as_str()),
                registry_url: pairs[i].1.clone(),
            };
            scopes.push(scope);
            assert(scopes_view(scopes@) =~= done + seq![scope@]);
        }
        i += 1;
    }
    assert(all.take(pairs.len() as int) =~= all);
    scopes
}

/// What a slot holds, in contracts.
spec fn slot_view(slot: Option<String>) -> Option<Seq<char>> {
    match slot {
        Some(value) => Some(value@),
        None => None,
    }
}

/// Whether `slot` holds what the first `n` lines state for `key`: nothing
/// where none states it, else the one value that they state.
spec fn slot_holds(lines: Seq<LineView>, n: int, key: Seq<char>, slot: Option<Seq<char>>) -> bool {
    match slot {
        None => forall|j: int| 0 <= j < n ==> !states(lines, j, key),
        Some(value) => {
            &&& exists|j: int| 0 <= j < n && states(lines, j, key)
            &&& forall|j: int| 0 <= j < n && states(lines, j, key) ==> value_at(lines, j) == value
        },
    }
}

/// A slot that holds what all the lines state for a key holds the key's
/// setting.
proof fn slot_is_setting(lines: Seq<LineView>, key: Seq<char>, slot: Option<Seq<char>>)
    requires
        slot_holds(lines, lines.len() as int, key, slot),
    ensures
        setting(lines, key) == match slot {
            Some(value) => value,
            None => Seq::empty(),
        },
{
    if exists|i: int| states(lines, i, key) {
        let c = choose|i: int| states(lines, i, key);
        assert(0 <= c < lines.len());
    }
}

/// The first line at fault decides the error.
proof fn first_offence_decides(lines: Seq<LineView>, i: int)
    requires
        first_offence(lines, i),
    ensures
        !acceptable(lines),
        decoded(lines) == Err::<NpmrcView, DecodeError>(offence(lines, i).unwrap()),
{
    let c = choose|k: int| first_offence(lines, k);
    assert(c == i);
}

/// The text in slot `s`, empty where the slot is free.
fn text_of(slots: &Vec<Option<String>>, s: usize) -> (text: String)
    requires
        s < slots.len(),
    ensures
        text@ == match slot_view(slots@[s as int]) {
            Some(value) => value,
            None => Seq::empty(),
        },
{
    match &slots[s] {
        Some(value) => value.clone(),
        None => String::new(),
    }
}

/// Whether `value` is `true` or `false`.
fn spells_boolean(value: &String) -> (r: bool)
    ensures
        r == is_boolean(value@),
{
    same_text(value, "true") || same_text(value, "false")
}

/// Whether slot `s` holds the text `true`.
fn flag_of(slots: &Vec<Option<String>>, s: usize) -> (flag: bool)
    requires
        s < slots.len(),
    ensures
        flag == (match slot_view(slots@[s as int]) {
            Some(value) => value,
            None => Seq::empty(),
        } == "true"@),
{
    proof {
        reveal_strlit("true");
        assert("true"@.len() == 4);
        assert(Seq::<char>::empty().len() == 0);
    }
    match &slots[s] {
        Some(value) => same_text(value, "true"),
        None => false,
    }
}

/// Decodes the lines of a file: each known key fills its field, a yes-or-no
/// key from `true` or `false`; every other key goes to `other`; the keys that
/// begin with `@` then declare the scopes. The first line at fault ends the
/// decoding with its error.
pub fn decode_lines(lines: &Vec<Line>) -> (r: Result<Npmrc, DecodeError>)
    ensures
        match r {
            Ok(config) => decoded(lines_view(lines@)) == Ok::<NpmrcView, DecodeError>(config@)
                && consistent(config@),
            Err(e) => decoded(lines_view(lines@)) == Err::<NpmrcView, DecodeError>(e),
        },
{
    let ghost lv = lines_view(lines@);
    let mut slots: Vec<Option<String>> = Vec::new();
    let mut s: usize = 0;
    while s < 8
        invariant
            s <= 8,
            slots.len() == s,
            forall|t: int| 0 <= t < s ==> slots@[t] is None,
        decreases 8 - s,
    {
        slots.push(None);
        s += 1;
    }
    let mut other: Vec<(String, String)> = Vec::new();
    let mut i: usize = 0;
    proof {
        known_keys_differ();
    }
    while i < lines.len()
        invariant
            i <= lines.len(),
            lv == lines_view(lines@),
            slots.len() == 8,
            forall|t: int|
                0 <= t < 8 ==> slot_holds(lv, i as int, #[trigger] known_keys()[t], slot_view(slots@[t])),
            forall|j: int| 0 <= j < i ==> offence(lv, j) is None,
            pairs_view(other@) == extras(lv, i as int),
            forall|s: int, t: int| 0 <= s < t < 8 ==> known_keys()[s] != known_keys()[t],
        decreases lines.len() - i,
    {
        let ghost held = slots@;
        assert(lv[i as int] == lines@[i as int]@);
        match &lines[i] {
            Line::Malformed => {
                proof {
                    first_offence_decides(lv, i as int);
                }
                return Err(DecodeError::Syntax);
            },
            Line::Section(_) => {
                proof {
                    first_offence_decides(lv, i as int);
                }
                return Err(DecodeError::Section);
            },
            Line::Value(key, value) => {
                if same_text(key, "scopes") {
                    proof {
                        first_offence_decides(lv, i as int);
                    }
                    return Err(DecodeError::Reserved);
                }
                match known_slot(key) {
                    Some(s) => {
                        assert(is_known(key@));
                        assert(is_flag(key@) <==> (s == 2 || s == 3 || s == 5)) by {
                            assert(known_keys()[2] == "progress"@);
                            assert(known_keys()[3] == "package-lock"@);
                            assert(known_keys()[5] == "save"@);
                        }
                        assert(slot_holds(lv, i as int, known_keys()[s as int], slot_view(held[s as int])));
                        if slots[s].is_some() {
                            proof {
                                first_offence_decides(lv, i as int);
                            }
                            return Err(DecodeError::Duplicate);
                        }
                        if (s == 2 || s == 3 || s == 5) && !spells_boolean(value) {
                            proof {
                                first_offence_decides(lv, i as int);
                            }
                            return Err(DecodeError::Boolean);
                        }
                        slots.set(s, Some(value.clone()));
                        proof {
                            assert(states(lv, i as int, key@));
                            assert(offence(lv, i as int) is None);
                            assert forall|t: int| 0 <= t < 8 implies slot_holds(
                                lv,
                                i + 1,
                                #[trigger] known_keys()[t],
                                slot_view(slots@[t]),
                            ) by {
                                assert(slot_holds(lv, i as int, known_keys()[t], slot_view(held[t])));
                                if t != s {
                                    assert(!states(lv, i as int, known_keys()[t]));
                                }
                            }
                        }
                    },
                    None => {
                        put(&mut other, key.clone(), value.clone());
                        proof {
                            assert(!is_flag(key@)) by {
                                assert(known_keys()[2] == "progress"@);
                                assert(known_keys()[3] == "package-lock"@);
                                assert(known_keys()[5] == "save"@);
                            }
                            assert(offence(lv, i as int) is None);
                            assert forall|t: int| 0 <= t < 8 implies slot_holds(
                                lv,
                                i + 1,
                                #[trigger] known_keys()[t],
                                slot_view(slots@[t]),
                            ) by {
                                assert(slot_holds(lv, i as int, known_keys()[t], slot_view(held[t])));
                                assert(!states(lv, i as int, known_keys()[t]));
                            }
                        }
                    },
                }
            },
            _ => {
                proof {
                    assert(offence(lv, i as int) is None);
                    assert forall|t: int| 0 <= t < 8 implies slot_holds(
                        lv,
                        i + 1,
                        #[trigger] known_keys()[t],
                        slot_view(slots@[t]),
                    ) by {
                        assert(slot_holds(lv, i as int, known_keys()[t], slot_view(held[t])));
                        assert(!states(lv, i as int, known_keys()[t]));
                    }
                }
            },
        }
        i += 1;
    }
    proof {
        assert(acceptable(lv));
        assert forall|t: int| 0 <= t < 8 implies setting(lv, #[trigger] known_keys()[t]) == match slot_view(
            slots@[t],
        ) {
            Some(value) => value,
            None => Seq::empty(),
        } by {
            slot_is_setting(lv, known_keys()[t], slot_view(slots@[t]));
        }
        assert(known_keys()[0] == "access"@);
        assert(known_keys()[1] == "loglevel"@);
        assert(known_keys()[2] == "progress"@);
        assert(known_keys()[3] == "package-lock"@);
        assert(known_keys()[4] == "registry"@);
        assert(known_keys()[5] == "save"@);
        assert(known_keys()[6] == "init-author-name"@);
        assert(known_keys()[7] == "init-author-email"@);
    }
    let scopes = promote(&other);
    let config = Npmrc {
        access: text_of(&slots, 0),
        loglevel: text_of(&slots, 1),
        progress: flag_of(&slots, 2),
        package_lock: flag_of(&slots, 3),
        registry: text_of(&slots, 4),
        save: flag_of(&slots, 5),
        scopes,
        init_author_name: text_of(&slots, 6),
        init_author_email: text_of(&slots, 7),
        other,
    };
    proof {
        assert(config@ == record(lv));
        decoded_record_is_consistent(lv, config@);
    }
    Ok(config)
}

/// Decodes the text of an `.npmrc` file.
pub fn parse(text: &str) -> (r: Result<Npmrc, DecodeError>)
    ensures
        match r {
            Ok(config) => decoded(ini_lines(text@)) == Ok::<NpmrcView, DecodeError>(config@)
                && consistent(config@),
            Err(e) => decoded(ini_lines(text@)) == Err::<NpmrcView, DecodeError>(e),
        },
{
    let lines = read_lines(text);
    decode_lines(&lines)
}

/// What was found where the user's `.npmrc` should be.
#[derive(Debug, Clone, PartialEq, Eq)]
pub enum HomeFile {
    /// The user has no home directory.
    NoHome,
    /// The file could not be read, for the reason given.
    Unreadable(String),
    /// The file's text.
    Contents(String),
}

/// Why the user's settings could not be read.
#[derive(Debug, Clone, PartialEq, Eq)]
pub enum Error {
    /// The user's home directory was not found.
    HomeDirectoryNotFound,
    /// The file could not be read, for the reason given.
    Io(String),
    /// The file's text is not an `.npmrc` file.
    Decode(DecodeError),
}

/// The settings in what was found at the file's place: the decoded text, or
/// the error that says why there is none.
pub fn load(file: HomeFile) -> (r: Result<Npmrc, Error>)
    ensures
        match file {
            HomeFile::NoHome => r matches Err(Error::HomeDirectoryNotFound),
            HomeFile::Unreadable(reason) => r matches Err(Error::Io(why)) && why@ == reason@,
            HomeFile::Contents(text) => match r {
                Ok(config) => decoded(ini_lines(text@)) == Ok::<NpmrcView, DecodeError>(config@)
                    && consistent(config@),
                Err(Error::Decode(e)) => decoded(ini_lines(text@)) == Err::<NpmrcView, DecodeError>(e),
                Err(_) => false,
            },
        },
{
    match file {
        HomeFile::NoHome => Err(Error::HomeDirectoryNotFound),
        HomeFile::Unreadable(reason) => Err(Error::Io(reason)),
        HomeFile::Contents(text) => match parse(text.as_str()) {
            Ok(config) => Ok(config),
            Err(e) => Err(Error::Decode(e)),
        },
    }
}

} // verus!
