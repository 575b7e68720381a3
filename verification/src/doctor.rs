//! The `doctor` diagnosis: from what was found on disk, the report lines and
//! the list of problems.

use vstd::prelude::*;
use crate::text::{decimal, push_decimal, push_str, string_from_chars};

verus! {

/// What is at a directory path.
#[derive(Debug, Clone, Copy, PartialEq, Eq)]
pub enum DirState {
    Missing,
    Directory,
    NotDirectory,
}

/// What is at the target settings path.
#[derive(Debug)]
pub enum TargetState {
    /// Nothing.
    Missing,
    /// A file holding valid JSON.
    ValidJson,
    /// A file that could not be read as JSON; the error text.
    InvalidJson(String),
    /// Something other than a file.
    NotFile,
}

/// The JSON check of one profile: its name, and the error text when it could
/// not be read as JSON.
#[derive(Debug)]
pub struct ProfileJsonCheck {
    pub name: String,
    pub error: Option<String>,
}

/// The lines `doctor` prints after the paths, and the problems it found.
#[derive(Debug)]
pub struct DoctorReport {
    pub lines: Vec<String>,
    pub issues: Vec<String>,
}

/// Report line for a runtime directory.
pub open spec fn dir_line(label: Seq<char>, st: DirState) -> Seq<char> {
    match st {
        DirState::Directory => "[ok] "@ + label + " exists"@,
        DirState::NotDirectory => "[error] "@ + label + " is not a directory"@,
        DirState::Missing => "[warn] "@ + label + " does not exist yet"@,
    }
}

/// Problem recorded for a runtime directory.
pub open spec fn dir_issue(label: Seq<char>, st: DirState) -> Option<Seq<char>> {
    match st {
        DirState::NotDirectory => Some(label + " is not a directory"@),
        _ => None,
    }
}

/// Report line for the target's parent directory.
pub open spec fn parent_line(st: DirState) -> Seq<char> {
    match st {
        DirState::Directory => "[ok] target parent exists"@,
        DirState::NotDirectory => "[error] target parent is not a directory"@,
        DirState::Missing => "[warn] target parent does not exist"@,
    }
}

/// Problem recorded for the target's parent directory.
pub open spec fn parent_issue(st: DirState) -> Option<Seq<char>> {
    match st {
        DirState::NotDirectory => Some("target parent is not a directory"@),
        _ => None,
    }
}

/// Report line for the target settings file.
pub open spec fn target_line(st: TargetState) -> Seq<char> {
    match st {
        TargetState::ValidJson => "[ok] target settings file is valid JSON"@,
        TargetState::InvalidJson(e) => "[error] target settings file is invalid JSON: "@ + e@,
        TargetState::NotFile => "[error] target settings path is not a file"@,
        TargetState::Missing => "[warn] target settings file does not exist yet"@,
    }
}

/// Problem recorded for the target settings file.
pub open spec fn target_issue(st: TargetState) -> Option<Seq<char>> {
    match st {
        TargetState::InvalidJson(_) => Some("target settings file is invalid JSON"@),
        TargetState::NotFile => Some("target settings path is not a file"@),
        _ => None,
    }
}

/// Report line for one profile.
pub open spec fn profile_line(p: ProfileJsonCheck) -> Seq<char> {
    match p.error {
        None => "[ok] profile "@ + p.name@ + " is valid JSON"@,
        Some(e) => "[error] profile "@ + p.name@ + " is invalid JSON: "@ + e@,
    }
}

/// Problem recorded for one profile.
pub open spec fn profile_issue(p: ProfileJsonCheck) -> Option<Seq<char>> {
    match p.error {
        None => None,
        Some(_) => Some("profile "@ + p.name@ + " is invalid JSON"@),
    }
}

/// The line counting the profiles.
pub open spec fn count_line(n: nat) -> Seq<char> {
    "[ok] detected "@ + decimal(n) + " profile(s)"@
}

/// An optional entry as a list of zero or one entries.
pub open spec fn listed(o: Option<Seq<char>>) -> Seq<Seq<char>> {
    match o {
        Some(x) => seq![x],
        None => Seq::empty(),
    }
}

/// Problems recorded for the profiles, in order.
pub open spec fn profile_issues(ps: Seq<ProfileJsonCheck>) -> Seq<Seq<char>>
    decreases ps.len(),
{
    if ps.len() == 0 {
        Seq::empty()
    } else {
        profile_issues(ps.drop_last()) + listed(profile_issue(ps.last()))
    }
}

/// The report lines, in order: the three runtime directories, the target's
/// parent, the target file, the profile count, then each profile.
pub open spec fn doctor_lines(dirs: (DirState, DirState, DirState), parent: DirState, target: TargetState, ps: Seq<ProfileJsonCheck>) -> Seq<Seq<char>> {
    seq![
        dir_line("config dir"@, dirs.0),
        dir_line("profiles dir"@, dirs.1),
        dir_line("backups dir"@, dirs.2),
        parent_line(parent),
        target_line(target),
        count_line(ps.len()),
    ] + ps.map_values(|p: ProfileJsonCheck| profile_line(p))
}

/// The problems found, in the order of the checks.
pub open spec fn doctor_issues(dirs: (DirState, DirState, DirState), parent: DirState, target: TargetState, ps: Seq<ProfileJsonCheck>) -> Seq<Seq<char>> {
    listed(dir_issue("config dir"@, dirs.0)) + listed(dir_issue("profiles dir"@, dirs.1)) + listed(
        dir_issue("backups dir"@, dirs.2),
    ) + listed(parent_issue(parent)) + listed(target_issue(target)) + profile_issues(ps)
}

fn text(parts: &[&str]) -> (res: String)
    ensures
        res@ == crate::doctor::concat_views(parts@),
{
    let mut out: Vec<char> = Vec::new();
    let mut i: usize = 0;
    while i < parts.len()
        invariant
            i <= parts@.len(),
            out@ == concat_views(parts@.take(i as int)),
        decreases parts@.len() - i,
    {
        push_str(&mut out, parts[i]);
        assert(parts@.take(i + 1).drop_last() =~= parts@.take(i as int));
        i = i + 1;
    }
    assert(parts@.take(parts@.len() as int) =~= parts@);
    string_from_chars(out.as_slice())
}

/// The characters of string slices placed one after another.
pub open spec fn concat_views(parts: Seq<&str>) -> Seq<char>
    decreases parts.len(),
{
    if parts.len() == 0 {
        Seq::empty()
    } else {
        concat_views(parts.drop_last()) + parts.last()@
    }
}

fn check_dir(label: &str, st: DirState, lines: &mut Vec<String>, issues: &mut Vec<String>)
    ensures
        crate::text::string_views(final(lines)@) == crate::text::string_views(old(lines)@).push(
            dir_line(label@, st),
        ),
        crate::text::string_views(final(issues)@) == crate::text::string_views(old(issues)@) + listed(
            dir_issue(label@, st),
        ),
{
    let ghost li = lines@;
    let ghost is = issues@;
    match st {
        DirState::Directory => {
            lines.push(text(&["[ok] ", label, " exists"]));
            proof {
                reveal_with_fuel(concat_views, 4);
            }
        },
        DirState::NotDirectory => {
            lines.push(text(&["[error] ", label, " is not a directory"]));
            issues.push(text(&[label, " is not a directory"]));
            proof {
                reveal_with_fuel(concat_views, 4);
                assert(crate::text::string_views(issues@) =~= crate::text::string_views(is).push(
                    label@ + " is not a directory"@,
                ));
            }
        },
        DirState::Missing => {
            lines.push(text(&["[warn] ", label, " does not exist yet"]));
            proof {
                reveal_with_fuel(concat_views, 4);
            }
        },
    }
    assert(crate::text::string_views(lines@) =~= crate::text::string_views(li).push(
        dir_line(label@, st),
    ));
    assert(crate::text::string_views(issues@) =~= crate::text::string_views(is) + listed(
        dir_issue(label@, st),
    ));
}


fn check_parent(st: DirState, lines: &mut Vec<String>, issues: &mut Vec<String>)
    ensures
        crate::text::string_views(final(lines)@) == crate::text::string_views(old(lines)@).push(
            parent_line(st),
        ),
        crate::text::string_views(final(issues)@) == crate::text::string_views(old(issues)@) + listed(
            parent_issue(st),
        ),
{
    let ghost li = lines@;
    let ghost is = issues@;
    match st {
        DirState::Directory => {
            lines.push(text(&["[ok] target parent exists"]));
        },
        DirState::NotDirectory => {
            lines.push(text(&["[error] target parent is not a directory"]));
            issues.push(text(&["target parent is not a directory"]));
        },
        DirState::Missing => {
            lines.push(text(&["[warn] target parent does not exist"]));
        },
    }
    proof {
        reveal_with_fuel(concat_views, 2);
        assert(crate::text::string_views(lines@) =~= crate::text::string_views(li).push(
            parent_line(st),
        ));
        assert(crate::text::string_views(issues@) =~= crate::text::string_views(is) + listed(
            parent_issue(st),
        ));
    }
}

fn check_target(st: &TargetState, lines: &mut Vec<String>, issues: &mut Vec<String>)
    ensures
        crate::text::string_views(final(lines)@) == crate::text::string_views(old(lines)@).push(
            target_line(*st),
        ),
        crate::text::string_views(final(issues)@) == crate::text::string_views(old(issues)@) + listed(
            target_issue(*st),
        ),
{
    let ghost li = lines@;
    let ghost is = issues@;
    match st {
        TargetState::ValidJson => {
            lines.push(text(&["[ok] target settings file is valid JSON"]));
        },
        TargetState::InvalidJson(e) => {
            lines.push(text(&["[error] target settings file is invalid JSON: ", e.as_str()]));
            issues.push(text(&["target settings file is invalid JSON"]));
        },
        TargetState::NotFile => {
            lines.push(text(&["[error] target settings path is not a file"]));
            issues.push(text(&["target settings path is not a file"]));
        },
        TargetState::Missing => {
            lines.push(text(&["[warn] target settings file does not exist yet"]));
        },
    }
    proof {
        reveal_with_fuel(concat_views, 3);
        assert(crate::text::string_views(lines@) =~= crate::text::string_views(li).push(
            target_line(*st),
        ));
        assert(crate::text::string_views(issues@) =~= crate::text::string_views(is) + listed(
            target_issue(*st),
        ));
    }
}

fn count_text(n: usize) -> (res: String)
    ensures
        res@ == count_line(n as nat),
{
    let mut out: Vec<char> = Vec::new();
    push_str(&mut out, "[ok] detected ");
    push_decimal(&mut out, n as u128);
    push_str(&mut out, " profile(s)");
    string_from_chars(out.as_slice())
}

/// Diagnoses the runtime state from what was found on disk: the three
/// runtime directories (configuration, profiles, backups), the target's
/// parent directory, the target settings file and the JSON check of each
/// profile. Missing things are warnings; anything of the wrong kind, and any
/// file that is not valid JSON, is a problem.
pub fn doctor_report(dirs: (DirState, DirState, DirState), parent: DirState, target: &TargetState, profiles: &Vec<ProfileJsonCheck>) -> (res: DoctorReport)
    ensures
        crate::text::string_views(res.lines@) == doctor_lines(dirs, parent, *target, profiles@),
        crate::text::string_views(res.issues@) == doctor_issues(dirs, parent, *target, profiles@),
{
    let mut lines: Vec<String> = Vec::new();
    let mut issues: Vec<String> = Vec::new();
    check_dir("config dir", dirs.0, &mut lines, &mut issues);
    check_dir("profiles dir", dirs.1, &mut lines, &mut issues);
    check_dir("backups dir", dirs.2, &mut lines, &mut issues);
    check_parent(parent, &mut lines, &mut issues);
    check_target(target, &mut lines, &mut issues);
    let ghost before_count = lines@;
    lines.push(count_text(profiles.len()));
    proof {
        assert(crate::text::string_views(lines@) =~= crate::text::string_views(before_count).push(
            count_line(profiles@.len()),
        ));
        assert(lines@.len() == 6);
        assert(crate::text::string_views(lines@) =~= seq![
            dir_line("config dir"@, dirs.0),
            dir_line("profiles dir"@, dirs.1),
            dir_line("backups dir"@, dirs.2),
            parent_line(parent),
            target_line(*target),
            count_line(profiles@.len()),
        ]);
        assert(crate::text::string_views(issues@) =~= listed(dir_issue("config dir"@, dirs.0))
            + listed(dir_issue("profiles dir"@, dirs.1)) + listed(
            dir_issue("backups dir"@, dirs.2),
        ) + listed(parent_issue(parent)) + listed(target_issue(*target)));
    }
    let ghost head_lines = crate::text::string_views(lines@);
    let ghost head_issues = crate::text::string_views(issues@);
    let mut i: usize = 0;
    while i < profiles.len()
        invariant
            i <= profiles@.len(),
            crate::text::string_views(lines@) == head_lines + profiles@.take(i as int).map_values(
                |p: ProfileJsonCheck| profile_line(p),
            ),
            crate::text::string_views(issues@) == head_issues + profile_issues(
                profiles@.take(i as int),
            ),
        decreases profiles@.len() - i,
    {
        let p = &profiles[i];
        let ghost li = lines@;
        let ghost is = issues@;
        match &p.error {
            None => {
                lines.push(text(&["[ok] profile ", p.name.as_str(), " is valid JSON"]));
            },
            Some(e) => {
                lines.push(
                    text(&["[error] profile ", p.name.as_str(), " is invalid JSON: ", e.as_str()]),
                );
                issues.push(text(&["profile ", p.name.as_str(), " is invalid JSON"]));
            },
        }
        proof {
            reveal_with_fuel(concat_views, 5);
            assert(profiles@.take(i + 1).drop_last() =~= profiles@.take(i as int));
            assert(profiles@.take(i + 1).map_values(|q: ProfileJsonCheck| profile_line(q))
                =~= profiles@.take(i as int).map_values(|q: ProfileJsonCheck| profile_line(q)).push(
                profile_line(profiles@[i as int]),
            ));
            assert(crate::text::string_views(lines@) =~= crate::text::string_views(li).push(
                profile_line(profiles@[i as int]),
            ));
            assert(crate::text::string_views(issues@) =~= crate::text::string_views(is) + listed(
                profile_issue(profiles@[i as int]),
            ));
        }
        i = i + 1;
    }
    assert(profiles@.take(profiles@.len() as int) =~= profiles@);
    DoctorReport { lines, issues }
}

proof fn lemma_profile_issues_empty(ps: Seq<ProfileJsonCheck>)
    ensures
        profile_issues(ps).len() == 0 <==> forall|i: int| 0 <= i < ps.len() ==> (#[trigger] ps[i]).error is None,
    decreases ps.len(),
{
    if ps.len() > 0 {
        lemma_profile_issues_empty(ps.drop_last());
        if profile_issues(ps).len() == 0 {
            assert forall|i: int| 0 <= i < ps.len() implies (#[trigger] ps[i]).error is None by {
                if i < ps.len() - 1 {
                    assert(ps.drop_last()[i] == ps[i]);
                }
            }
        } else {
            if forall|i: int| 0 <= i < ps.len() ==> (#[trigger] ps[i]).error is None {
                assert(ps.last().error is None);
                assert forall|i: int| 0 <= i < ps.drop_last().len() implies (#[trigger] ps.drop_last()[i]).error is None by {
                    assert(ps.drop_last()[i] == ps[i]);
                }
            }
        }
    }
}

/// Missing things are only warnings: `doctor` finds a problem (and fails)
/// exactly when a runtime directory or the target's parent is something
/// other than a directory, the target path holds something other than a
/// file or a file that is not valid JSON, or a profile is not valid JSON. A
/// fresh install, with directories or the target file not created yet, has
/// no problem.
pub proof fn lemma_doctor_fails_only_on_real_problems(
    dirs: (DirState, DirState, DirState),
    parent: DirState,
    target: TargetState,
    ps: Seq<ProfileJsonCheck>,
)
    ensures
        doctor_issues(dirs, parent, target, ps).len() == 0 <==> (dirs.0 != DirState::NotDirectory
            && dirs.1 != DirState::NotDirectory && dirs.2 != DirState::NotDirectory && parent
            != DirState::NotDirectory && (target is Missing || target is ValidJson) && forall|i: int|
            0 <= i < ps.len() ==> (#[trigger] ps[i]).error is None),
        failure_message(doctor_issues(dirs, parent, target, ps)) is None <==> doctor_issues(
            dirs,
            parent,
            target,
            ps,
        ).len() == 0,
{
    lemma_profile_issues_empty(ps);
}

/// The message `doctor` fails with: `Doctor found issues:` followed by one
/// `\n- <issue>` per problem; `None` when there is no problem.
pub open spec fn failure_message(issues: Seq<Seq<char>>) -> Option<Seq<char>>
{
    if issues.len() == 0 {
        None
    } else {
        Some("Doctor found issues:"@ + issue_list(issues))
    }
}

/// `\n- <issue>` for each issue, in order.
pub open spec fn issue_list(issues: Seq<Seq<char>>) -> Seq<char>
    decreases issues.len(),
{
    if issues.len() == 0 {
        Seq::empty()
    } else {
        issue_list(issues.drop_last()) + "\n- "@ + issues.last()
    }
}

/// The error message for a diagnosis that found problems.
pub fn doctor_failure_message(issues: &Vec<String>) -> (res: Option<String>)
    ensures
        match failure_message(crate::text::string_views(issues@)) {
            Some(m) => res is Some && res->0@ == m,
            None => res is None,
        },
{
    if issues.len() == 0 {
        return None;
    }
    let mut out: Vec<char> = Vec::new();
    push_str(&mut out, "Doctor found issues:");
    let ghost head = out@;
    let mut i: usize = 0;
    while i < issues.len()
        invariant
            i <= issues@.len(),
            out@ == head + issue_list(crate::text::string_views(issues@.take(i as int))),
        decreases issues@.len() - i,
    {
        push_str(&mut out, "\n- ");
        push_str(&mut out, issues[i].as_str());
        assert(crate::text::string_views(issues@.take(i + 1)).drop_last() =~= crate::text::string_views(issues@.take(i as int)));
        i = i + 1;
    }
    assert(issues@.take(issues@.len() as int) =~= issues@);
    Some(string_from_chars(out.as_slice()))
}

} // verus!
