//! Profile names, rotation order and the active-profile bookkeeping.

use vstd::prelude::*;
use vstd::relations::sorted_by;
use crate::json::{
    canonical_text, json_equivalent, json_well_formed, lemma_equivalent_values_have_equal_canonical_text,
    JsonValue,
};
use crate::json_unique::{lemma_equal_canonical_text_means_equivalent, numbers_shaped};
use crate::text::{
    ends_with, lex_order, string_views, sort_strings, chars_of, chars_end_with, copy_range,
    string_from_chars, push_str, trimmed, trim_chars, is_white_space, trim_start, trim_end,
};

verus! {

/// One settings profile: its name (the file name without `.json`) and its file.
#[derive(Debug, Clone, PartialEq, Eq)]
pub struct ProfileEntry {
    /// Profile name.
    pub name: String,
    /// The profile's JSON file.
    pub path: std::path::PathBuf,
}

/// Why a profile name was refused.
#[derive(Debug, Clone, Copy, PartialEq, Eq)]
pub enum ProfileNameError {
    /// The name is the empty string.
    Empty,
    /// The name starts with `.`, which would make the profile a hidden file.
    LeadingDot,
    /// The name holds a character other than ASCII letters, digits, `.`, `_` or `-`.
    InvalidCharacter,
}

/// The message shown when the profile name `name` is refused for `e`.
pub open spec fn profile_name_message(e: ProfileNameError, name: Seq<char>) -> Seq<char> {
    match e {
        ProfileNameError::Empty => "Profile name cannot be empty"@,
        ProfileNameError::LeadingDot => "Profile name cannot start with '.'"@,
        ProfileNameError::InvalidCharacter => "Invalid profile name: "@ + name,
    }
}

impl ProfileNameError {
    /// The message for refusing the profile name `name`.
    pub fn message(&self, name: &str) -> (res: String)
        ensures
            res@ == profile_name_message(*self, name@),
    {
        let mut out: Vec<char> = Vec::new();
        match self {
            ProfileNameError::Empty => push_str(&mut out, "Profile name cannot be empty"),
            ProfileNameError::LeadingDot => push_str(&mut out, "Profile name cannot start with '.'"),
            ProfileNameError::InvalidCharacter => {
                push_str(&mut out, "Invalid profile name: ");
                push_str(&mut out, name);
            },
        }
        string_from_chars(out.as_slice())
    }
}

/// Characters allowed in a profile name.
pub open spec fn is_profile_name_char(c: char) -> bool {
    ('a' <= c && c <= 'z') || ('A' <= c && c <= 'Z') || ('0' <= c && c <= '9') || c == '.'
        || c == '_' || c == '-'
}

/// The verdict on a candidate profile name, in the order the checks are made.
pub open spec fn profile_name_verdict(name: Seq<char>) -> Result<(), ProfileNameError> {
    if name.len() == 0 {
        Err(ProfileNameError::Empty)
    } else if name[0] == '.' {
        Err(ProfileNameError::LeadingDot)
    } else if exists|i: int| 0 <= i < name.len() && !is_profile_name_char(#[trigger] name[i]) {
        Err(ProfileNameError::InvalidCharacter)
    } else {
        Ok(())
    }
}

fn name_char_ok(c: char) -> (ok: bool)
    ensures
        ok == is_profile_name_char(c),
{
    (c >= 'a' && c <= 'z') || (c >= 'A' && c <= 'Z') || (c >= '0' && c <= '9') || c == '.' || c
        == '_' || c == '-'
}

/// Checks a profile name: it must be non-empty, must not start with `.`, and may
/// hold only ASCII letters, digits, `.`, `_` and `-`.
pub fn validate_profile_name(name: &str) -> (res: Result<(), ProfileNameError>)
    ensures
        res == profile_name_verdict(name@),
{
    let len = name.unicode_len();
    if len == 0 {
        return Err(ProfileNameError::Empty);
    }
    if name.get_char(0) == '.' {
        return Err(ProfileNameError::LeadingDot);
    }
    let mut i: usize = 0;
    while i < len
        invariant
            len == name@.len(),
            len > 0,
            name@[0] != '.',
            i <= len,
            forall|j: int| 0 <= j < i ==> is_profile_name_char(#[trigger] name@[j]),
        decreases len - i,
    {
        if !name_char_ok(name.get_char(i)) {
            assert(!is_profile_name_char(name@[i as int]));
            return Err(ProfileNameError::InvalidCharacter);
        }
        i = i + 1;
    }
    Ok(())
}

/// Which profile names are accepted: exactly the non-empty names that do not
/// start with `.` and whose characters are all ASCII letters of either case,
/// ASCII digits, `.`, `_` or `-`. The empty name is refused as empty, and a
/// name starting with `.` as a hidden file.
pub proof fn lemma_profile_name_rules(name: Seq<char>)
    ensures
        profile_name_verdict(name) is Ok <==> (name.len() > 0 && name[0] != '.' && forall|i: int|
            0 <= i < name.len() ==> {
                let c = #[trigger] name[i];
                ('a' <= c && c <= 'z') || ('A' <= c && c <= 'Z') || ('0' <= c && c <= '9') || c
                    == '.' || c == '_' || c == '-'
            }),
        name.len() == 0 ==> profile_name_verdict(name) == Err::<(), ProfileNameError>(
            ProfileNameError::Empty,
        ),
        name.len() > 0 && name[0] == '.' ==> profile_name_verdict(name) == Err::<
            (),
            ProfileNameError,
        >(ProfileNameError::LeadingDot),
{
    if name.len() > 0 && name[0] != '.' {
        if exists|i: int| 0 <= i < name.len() && !is_profile_name_char(#[trigger] name[i]) {
            let i = choose|i: int| 0 <= i < name.len() && !is_profile_name_char(#[trigger] name[i]);
            assert(!is_profile_name_char(name[i]));
        }
    }
}

/// The index that follows `current` in a rotation over `count` profiles.
pub open spec fn next_index_spec(current: Option<usize>, count: usize) -> Option<usize> {
    if count == 0 {
        None
    } else {
        match current {
            Some(i) => Some(((i + 1) % (count as int)) as usize),
            None => Some(0),
        }
    }
}

/// Index of the profile that follows `current` among `profile_count` profiles:
/// the next one, wrapping from the last to the first; the first one when the
/// current profile is unknown; `None` when there are no profiles.
pub fn next_profile_index(current: Option<usize>, profile_count: usize) -> (res: Option<usize>)
    ensures
        res == next_index_spec(current, profile_count),
{
    if profile_count == 0 {
        return None;
    }
    match current {
        Some(index) => Some(((index as u128 + 1) % (profile_count as u128)) as usize),
        None => Some(0),
    }
}


/// `<name>.json`, the file that holds the settings profile `name`.
pub open spec fn profile_file_name_text(name: Seq<char>) -> Seq<char> {
    name + ".json"@
}

/// The file name of the settings profile `name`: `<name>.json`.
pub fn profile_file_name(name: &str) -> (res: String)
    ensures
        res@ == profile_file_name_text(name@),
{
    let mut out: Vec<char> = Vec::new();
    push_str(&mut out, name);
    push_str(&mut out, ".json");
    string_from_chars(out.as_slice())
}

/// The profile a directory entry holds: the stem of a `<stem>.json` file name
/// whose stem is not empty (a file named just `.json` has no extension and is
/// no profile).
pub open spec fn profile_name_of_file(file_name: Seq<char>) -> Option<Seq<char>> {
    if ends_with(file_name, ".json"@) && file_name.len() > 5 {
        Some(file_name.take(file_name.len() - 5))
    } else {
        None
    }
}

/// The profile held by a file in the profiles directory, if it is one.
pub fn profile_name_from_file_name(file_name: &str) -> (res: Option<String>)
    ensures
        match res {
            Some(n) => profile_name_of_file(file_name@) == Some(n@),
            None => profile_name_of_file(file_name@) is None,
        },
{
    let v = chars_of(file_name);
    if chars_end_with(v.as_slice(), ".json") && v.len() > 5 {
        proof {
            reveal_strlit(".json");
        }
        let stem = copy_range(v.as_slice(), 0, v.len() - 5);
        Some(string_from_chars(stem.as_slice()))
    } else {
        None
    }
}

/// The profiles held by a list of file names, in the order of the list.
pub open spec fn profiles_in(file_names: Seq<Seq<char>>) -> Seq<Seq<char>>
    decreases file_names.len(),
{
    if file_names.len() == 0 {
        Seq::empty()
    } else {
        let rest = profiles_in(file_names.drop_last());
        match profile_name_of_file(file_names.last()) {
            Some(n) => rest.push(n),
            None => rest,
        }
    }
}

/// The settings profiles found among the regular files of the profiles
/// directory, sorted by name.
pub fn collect_profile_names(file_names: &Vec<String>) -> (res: Vec<String>)
    ensures
        sorted_by(string_views(res@), lex_order()),
        string_views(res@).to_multiset() == profiles_in(string_views(file_names@)).to_multiset(),
{
    let mut found: Vec<String> = Vec::new();
    let mut i: usize = 0;
    while i < file_names.len()
        invariant
            i <= file_names@.len(),
            string_views(found@) == profiles_in(string_views(file_names@.take(i as int))),
        decreases file_names@.len() - i,
    {
        let ghost before = found@;
        match profile_name_from_file_name(file_names[i].as_str()) {
            Some(n) => {
                found.push(n);
                assert(string_views(found@) =~= string_views(before).push(n@));
            },
            None => {},
        }
        assert(string_views(file_names@.take(i + 1)).drop_last() =~= string_views(
            file_names@.take(i as int),
        ));
        i = i + 1;
    }
    assert(file_names@.take(file_names@.len() as int) =~= file_names@);
    sort_strings(found)
}

/// The first index whose candidate equals `target`.
pub open spec fn first_match(target: Seq<char>, candidates: Seq<Option<Seq<char>>>) -> Option<int>
    decreases candidates.len(),
{
    if candidates.len() == 0 {
        None
    } else {
        match first_match(target, candidates.drop_last()) {
            Some(i) => Some(i),
            None => if candidates.last() == Some(target) {
                Some(candidates.len() - 1)
            } else {
                None
            },
        }
    }
}

/// `first_match` finds the first matching index, and nothing when none matches.
pub proof fn lemma_first_match(target: Seq<char>, candidates: Seq<Option<Seq<char>>>)
    ensures
        match first_match(target, candidates) {
            Some(i) => 0 <= i < candidates.len() && candidates[i] == Some(target) && forall|j: int|
                0 <= j < i ==> candidates[j] != Some(target),
            None => forall|j: int| 0 <= j < candidates.len() ==> candidates[j] != Some(target),
        },
    decreases candidates.len(),
{
    if candidates.len() > 0 {
        lemma_first_match(target, candidates.drop_last());
        assert forall|j: int| 0 <= j < candidates.len() - 1 implies candidates.drop_last()[j]
            == candidates[j] by {}
    }
}

proof fn lemma_first_match_prefix(target: Seq<char>, candidates: Seq<Option<Seq<char>>>, k: int)
    requires
        0 <= k <= candidates.len(),
        first_match(target, candidates.take(k)) is Some,
    ensures
        first_match(target, candidates) == first_match(target, candidates.take(k)),
    decreases candidates.len() - k,
{
    if k < candidates.len() {
        assert(candidates.drop_last().take(k) =~= candidates.take(k));
        lemma_first_match_prefix(target, candidates.drop_last(), k);
    } else {
        assert(candidates.take(k) =~= candidates);
    }
}

/// The characters held by a list of optional strings.
pub open spec fn option_views(s: Seq<Option<String>>) -> Seq<Option<Seq<char>>> {
    s.map_values(|o: Option<String>| match o {
        Some(t) => Some(t@),
        None => None,
    })
}

/// Finds which profile the target settings file holds: the first profile
/// whose canonical JSON text equals that of the target. `target` is `None`
/// when there is no target file; a candidate is `None` when that profile
/// could not be read as JSON (it never matches).
pub fn detect_current_profile_index(target: Option<&String>, candidates: &Vec<Option<String>>) -> (res: Option<usize>)
    ensures
        match target {
            None => res is None,
            Some(t) => match first_match(t@, option_views(candidates@)) {
                Some(i) => res is Some && res->0 as int == i,
                None => res is None,
            },
        },
{
    if target.is_none() {
        return None;
    }
    let t = target.unwrap();
    assert(target == Some(t));
    let ghost cv = option_views(candidates@);
    let mut i: usize = 0;
    assert(cv.take(0) =~= Seq::<Option<Seq<char>>>::empty());
    while i < candidates.len()
        invariant
            i <= candidates@.len(),
            cv == option_views(candidates@),
            target == Some(t),
            first_match(t@, cv.take(i as int)) is None,
        decreases candidates@.len() - i,
    {
        assert(cv.take(i + 1).drop_last() =~= cv.take(i as int));
        match &candidates[i] {
            Some(c) => {
                assert(cv[i as int] == Some(c@));
                if *c == *t {
                    proof {
                        assert(cv.take(i + 1).last() == cv[i as int]);
                        assert(first_match(t@, cv.take(i + 1)) == Some(i as int));
                        lemma_first_match_prefix(t@, cv, i + 1);
                    }
                    return Some(i);
                }
            },
            None => {},
        }
        i = i + 1;
    }
    assert(cv.take(candidates@.len() as int) =~= cv);
    None
}

/// Name of the profile the target file holds, if any (see
/// [`detect_current_profile_index`]); `names` and `candidates` are listed in
/// the same order.
pub fn detect_current_profile_name(names: &Vec<String>, target: Option<&String>, candidates: &Vec<Option<String>>) -> (res: Option<String>)
    requires
        names@.len() == candidates@.len(),
    ensures
        match target {
            None => res is None,
            Some(t) => match first_match(t@, option_views(candidates@)) {
                Some(i) => res is Some && res->0@ == names@[i]@,
                None => res is None,
            },
        },
{
    proof {
        if target is Some {
            lemma_first_match(target->0@, option_views(candidates@));
        }
    }
    let found = detect_current_profile_index(target, candidates);
    match found {
        Some(i) => {
            let n = names[i].clone();
            Some(n)
        },
        None => None,
    }
}

/// Index of the first name equal to `name`.
pub fn position_of_name(names: &Vec<String>, name: &str) -> (res: Option<usize>)
    ensures
        match res {
            Some(i) => i < names@.len() && names@[i as int]@ == name@ && forall|j: int|
                0 <= j < i ==> names@[j]@ != name@,
            None => forall|j: int| 0 <= j < names@.len() ==> names@[j]@ != name@,
        },
{
    let target = name.to_owned();
    let mut i: usize = 0;
    while i < names.len()
        invariant
            i <= names@.len(),
            target@ == name@,
            forall|j: int| 0 <= j < i ==> names@[j]@ != name@,
        decreases names@.len() - i,
    {
        if names[i] == target {
            return Some(i);
        }
        i = i + 1;
    }
    None
}

/// Which profile is active: the one named by the current-selection record
/// when that names a listed profile, otherwise the one found by content
/// (`detected`).
pub fn resolve_current_index(names: &Vec<String>, recorded: Option<&String>, detected: Option<usize>) -> (res: Option<usize>)
    ensures
        match recorded {
            Some(r) if exists|j: int| 0 <= j < names@.len() && names@[j]@ == r@ => res is Some
                && res->0 < names@.len() && names@[res->0 as int]@ == r@ && forall|j: int|
                0 <= j < res->0 ==> names@[j]@ != r@,
            _ => res == detected,
        },
{
    match recorded {
        Some(r) => match position_of_name(names, r.as_str()) {
            Some(i) => Some(i),
            None => detected,
        },
        None => detected,
    }
}

/// The name shown as "before" when rotating: the active profile's name, or
/// `unknown`.
pub fn current_label(names: &Vec<String>, current: Option<usize>) -> (res: String)
    ensures
        match current {
            Some(i) if i < names@.len() => res@ == names@[i as int]@,
            _ => res@ == "unknown"@,
        },
{
    match current {
        Some(i) => if i < names.len() {
            names[i].clone()
        } else {
            let mut out: Vec<char> = Vec::new();
            push_str(&mut out, "unknown");
            string_from_chars(out.as_slice())
        },
        None => {
            let mut out: Vec<char> = Vec::new();
            push_str(&mut out, "unknown");
            string_from_chars(out.as_slice())
        },
    }
}

/// The name held by a current-selection record: the file's text without
/// surrounding white space; `None` when nothing is left.
pub open spec fn current_record_name(raw: Seq<char>) -> Option<Seq<char>> {
    if trimmed(raw).len() == 0 {
        None
    } else {
        Some(trimmed(raw))
    }
}

/// Reads the text of a current-selection record into the name it holds.
pub fn parse_current_record(raw: &str) -> (res: Option<String>)
    ensures
        match res {
            Some(n) => current_record_name(raw@) == Some(n@),
            None => current_record_name(raw@) is None,
        },
{
    let t = trim_chars(raw);
    if t.len() == 0 {
        None
    } else {
        Some(string_from_chars(t.as_slice()))
    }
}

/// The name held by a previous-selection record: the trimmed text, when it
/// is a valid profile name.
pub open spec fn before_record_name(raw: Seq<char>) -> Option<Seq<char>> {
    if trimmed(raw).len() == 0 || profile_name_verdict(trimmed(raw)) is Err {
        None
    } else {
        Some(trimmed(raw))
    }
}

/// Reads the text of a previous-selection record into the profile name it
/// holds; `None` when it is empty or not a valid profile name. (Whether that
/// profile still exists is for the caller to check.)
pub fn parse_before_record(raw: &str) -> (res: Option<String>)
    ensures
        match res {
            Some(n) => before_record_name(raw@) == Some(n@),
            None => before_record_name(raw@) is None,
        },
{
    let t = trim_chars(raw);
    if t.len() == 0 {
        return None;
    }
    let s = string_from_chars(t.as_slice());
    match validate_profile_name(s.as_str()) {
        Ok(()) => Some(s),
        Err(_) => None,
    }
}

/// Why a profile's content was refused.
#[derive(Debug, Clone, Copy, PartialEq, Eq)]
pub enum JsonCheckError {
    /// The content is not one JSON document.
    InvalidJson,
}

/// A profile can be written over the target only when it holds one JSON
/// document.
pub fn check_profile_content(content: &[u8]) -> (res: Result<(), JsonCheckError>)
    ensures
        res is Ok <==> crate::codex::parses_as_json(content@),
{
    if crate::codex::is_valid_json(content) {
        Ok(())
    } else {
        Err(JsonCheckError::InvalidJson)
    }
}

/// What to do with the previous-selection record after switching to a profile.
#[derive(Debug, PartialEq, Eq)]
pub enum BeforeRecordAction {
    /// Record this profile as the one before the switch.
    Write(String),
    /// Leave the record as it is.
    Keep,
    /// Remove the record.
    Clear,
}

/// After a switch to `target`: record the profile that was active before it,
/// unless that was `target` itself (then the record stays as it is); with no
/// known previous profile the record is removed.
pub fn before_record_action(previous: Option<&String>, target: &str) -> (res: BeforeRecordAction)
    ensures
        match previous {
            Some(p) => if p@ != target@ {
                res matches BeforeRecordAction::Write(w) && w@ == p@
            } else {
                res == BeforeRecordAction::Keep
            },
            None => res == BeforeRecordAction::Clear,
        },
{
    match previous {
        Some(p) => {
            let t = target.to_owned();
            if *p != t {
                BeforeRecordAction::Write(p.clone())
            } else {
                BeforeRecordAction::Keep
            }
        },
        None => BeforeRecordAction::Clear,
    }
}

/// What switching the target settings file to a profile takes.
#[derive(Debug, Clone, Copy, PartialEq, Eq)]
pub enum SwitchPlan {
    /// The target already holds the profile's content: nothing is written.
    AlreadyActive,
    /// Back up the existing target file, then write the profile over it.
    BackUpThenWrite,
    /// There is no target file yet: write the profile as a new one.
    CreateTarget,
}

/// The switch plan for a target holding canonical text `target` (`None`
/// when there is no target file) and a profile with canonical text `profile`.
pub open spec fn profile_switch_plan(target: Option<Seq<char>>, profile: Seq<char>) -> SwitchPlan {
    match target {
        None => SwitchPlan::CreateTarget,
        Some(t) => if t == profile {
            SwitchPlan::AlreadyActive
        } else {
            SwitchPlan::BackUpThenWrite
        },
    }
}

/// Decides a switch from the canonical JSON texts involved: `target` is the
/// target file's text (`None` when there is no target file), `profile` the
/// profile's.
pub fn plan_profile_switch(target: Option<&String>, profile: &String) -> (res: SwitchPlan)
    ensures
        res == profile_switch_plan(
            match target {
                Some(t) => Some(t@),
                None => None,
            },
            profile@,
        ),
{
    match target {
        None => SwitchPlan::CreateTarget,
        Some(t) => if *t == *profile {
            SwitchPlan::AlreadyActive
        } else {
            SwitchPlan::BackUpThenWrite
        },
    }
}

/// Lines of a profile listing: `* name` for the active profile, `  name` for
/// the others, in the order given.
pub fn format_profile_list(names: &Vec<String>, current: Option<&String>) -> (res: Vec<String>)
    ensures
        res@.len() == names@.len(),
        forall|i: int|
            0 <= i < names@.len() ==> #[trigger] res@[i]@ == if current is Some && current->0@
                == names@[i]@ {
                "* "@ + names@[i]@
            } else {
                "  "@ + names@[i]@
            },
{
    let mut res: Vec<String> = Vec::new();
    let mut i: usize = 0;
    while i < names.len()
        invariant
            i <= names@.len(),
            res@.len() == i,
            forall|j: int|
                0 <= j < i ==> #[trigger] res@[j]@ == if current is Some && current->0@
                    == names@[j]@ {
                    "* "@ + names@[j]@
                } else {
                    "  "@ + names@[j]@
                },
        decreases names@.len() - i,
    {
        let active = match current {
            Some(c) => *c == names[i],
            None => false,
        };
        let mut out: Vec<char> = Vec::new();
        if active {
            push_str(&mut out, "* ");
        } else {
            push_str(&mut out, "  ");
        }
        push_str(&mut out, names[i].as_str());
        res.push(string_from_chars(out.as_slice()));
        i = i + 1;
    }
    res
}


/// The index reached from `start` after `steps` moves to the next profile.
pub open spec fn rotate(start: Option<usize>, count: usize, steps: nat) -> Option<usize>
    decreases steps,
{
    if steps == 0 {
        start
    } else {
        next_index_spec(rotate(start, count, (steps - 1) as nat), count)
    }
}

/// Rotation stays within the profile list and walks it in order: from
/// profile `i`, `k` moves to the next profile reach profile `(i + k) mod n`,
/// so `n` moves come back to where they started and every profile is
/// visited on the way; from an unknown profile the first move goes to the
/// first profile.
pub proof fn lemma_rotation_cycles(i: usize, count: usize, steps: nat)
    requires
        i < count,
    ensures
        rotate(Some(i), count, steps) == Some(((i + steps) % (count as int)) as usize),
        next_index_spec(None, count) == Some(0usize),
    decreases steps,
{
    if steps == 0 {
        vstd::arithmetic::div_mod::lemma_small_mod(i as nat, count as nat);
    } else {
        lemma_rotation_cycles(i, count, (steps - 1) as nat);
        vstd::arithmetic::div_mod::lemma_mod_bound(i + steps - 1, count as int);
        vstd::arithmetic::div_mod::lemma_mod_bound(i + steps, count as int);
        let prev = ((i + steps - 1) % (count as int)) as usize;
        assert(prev as int == (i + steps - 1) % (count as int));
        assert(((prev + 1) % (count as int)) == ((i + steps) % (count as int))) by (nonlinear_arith)
            requires
                prev == (i + steps - 1) % (count as int),
                count > 0,
                steps > 0,
        {
            vstd::arithmetic::div_mod::lemma_add_mod_noop(i + steps - 1, 1, count as int);
        }
    }
}

/// The previous-selection record after a switch to `target`: the profile
/// active before the switch when that differs from `target`, the old record
/// when the switch stayed on the same profile, nothing when the previous
/// profile is unknown.
pub open spec fn before_after_switch(previous: Option<Seq<char>>, old_before: Option<Seq<char>>, target: Seq<char>) -> Option<Seq<char>> {
    match previous {
        Some(p) => if p != target {
            Some(p)
        } else {
            old_before
        },
        None => None,
    }
}

/// `before` toggles: with `b` active and `a` recorded as the one before,
/// switching to `a` makes `b` the one before, and switching back to `b`
/// makes `a` the one before again.
pub proof fn lemma_before_toggles(a: Seq<char>, b: Seq<char>)
    requires
        a != b,
    ensures
        before_after_switch(Some(b), Some(a), a) == Some(b),
        before_after_switch(Some(a), Some(b), b) == Some(a),
{
}

/// The active profile is recognised by content: the profile found for a
/// target file is the first one with the same JSON content as the target (in
/// any formatting and member order), and none is found when no profile has
/// that content. Numbers are taken as serde_json writes them.
pub proof fn lemma_detection_is_by_content(target: JsonValue, profiles: Seq<JsonValue>)
    requires
        json_well_formed(target),
        numbers_shaped(target),
        forall|k: int| 0 <= k < profiles.len() ==> json_well_formed(#[trigger] profiles[k]),
        forall|k: int| 0 <= k < profiles.len() ==> numbers_shaped(#[trigger] profiles[k]),
    ensures
        match first_match(
            canonical_text(target),
            profiles.map_values(|p: JsonValue| Some(canonical_text(p))),
        ) {
            Some(i) => 0 <= i < profiles.len() && json_equivalent(profiles[i], target) && forall|
                j: int,
            | 0 <= j < i ==> !json_equivalent(#[trigger] profiles[j], target),
            None => forall|j: int|
                0 <= j < profiles.len() ==> !json_equivalent(#[trigger] profiles[j], target),
        },
{
    let t = canonical_text(target);
    let cands = profiles.map_values(|p: JsonValue| Some(canonical_text(p)));
    lemma_first_match(t, cands);
    assert forall|j: int| 0 <= j < profiles.len() && json_equivalent(#[trigger] profiles[j], target)
        implies cands[j] == Some(t) by {
        lemma_equivalent_values_have_equal_canonical_text(profiles[j], target);
    }
    match first_match(t, cands) {
        Some(i) => {
            assert(cands[i] == Some(canonical_text(profiles[i])));
            lemma_equal_canonical_text_means_equivalent(profiles[i], target);
        },
        None => {},
    }
}


/// Using the same profile again changes nothing: once a switch has written a
/// profile, the target holds that profile's content, so a second `use` of it
/// finds it already active (nothing is backed up or written), and the
/// previous-selection record stays as it was.
pub proof fn lemma_repeat_use_changes_nothing(profile: Seq<char>, name: Seq<char>, old_before: Option<Seq<char>>)
    ensures
        profile_switch_plan(Some(profile), profile) == SwitchPlan::AlreadyActive,
        before_after_switch(Some(name), old_before, name) == old_before,
{
}

/// Whether edits made to the target should be offered back to the recorded
/// profile: both canonical texts are known and they differ.
pub fn settings_sync_back_pending(target: Option<&String>, profile: Option<&String>) -> (res: bool)
    ensures
        res == (target is Some && profile is Some && target->0@ != profile->0@),
{
    match (target, profile) {
        (Some(t), Some(p)) => *t != *p,
        _ => false,
    }
}


/// The settings switch writes over an existing target only after backing it
/// up, creates the target when there is none, and finds the profile already
/// active exactly when the target holds the same canonical text.
pub proof fn lemma_profile_switch_rules(target: Option<Seq<char>>, profile: Seq<char>)
    ensures
        profile_switch_plan(target, profile) == SwitchPlan::CreateTarget <==> target is None,
        profile_switch_plan(target, profile) == SwitchPlan::AlreadyActive <==> target == Some(
            profile,
        ),
        profile_switch_plan(target, profile) == SwitchPlan::BackUpThenWrite <==> (target is Some
            && target->0 != profile),
{
}

} // verus!
