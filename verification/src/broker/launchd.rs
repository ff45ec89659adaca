//! Installing and removing the macOS helper: what is done in which order, and what is reported.
//!
//! launchd runs the helper as root, and the helper runs charon as root, so both are copied to
//! directories where only root can write before anything is started.

use crate::broker::protocol::{
    MACOS_HELPER_BIN, MACOS_HELPER_LOG, MACOS_LABEL, MACOS_PLIST, MACOS_RUN_DIR, MACOS_SUPPORT_DIR,
};
use crate::model::opt_view;
use crate::text::{
    ends, ends_with, has, join, join_all, lemma_row_stands, lemma_stands_before, trim, trimmed, views,
};
use vstd::prelude::*;

verus! {

/// Where the version of the installing app is recorded.
pub const MACOS_VERSION_FILE: &'static str =
    "/Library/Application Support/dev.jackolix.ipsecvpn/version";

/// What is recorded when the version of the installing app is not known.
pub const MACOS_VERSION_UNSTAMPED: &'static str = "unstamped";

/// The launchd description of the helper: started at load, restarted when it ends.
pub open spec fn plist() -> Seq<char> {
    "<?xml version=\"1.0\" encoding=\"UTF-8\"?>\n<!DOCTYPE plist PUBLIC \"-//Apple//DTD PLIST 1.0//EN\" \"http://www.apple.com/DTDs/PropertyList-1.0.dtd\">\n<plist version=\"1.0\">\n<dict>\n    <key>Label</key>\n    <string>"@
        + MACOS_LABEL@
        + "</string>\n    <key>ProgramArguments</key>\n    <array>\n        <string>"@
        + MACOS_HELPER_BIN@
        + "</string>\n        <string>run</string>\n    </array>\n    <key>RunAtLoad</key>\n    <true/>\n    <key>KeepAlive</key>\n    <true/>\n    <key>StandardErrorPath</key>\n    <string>"@
        + MACOS_HELPER_LOG@ + "</string>\n</dict>\n</plist>\n"@
}

/// The launchd description of the helper.
pub fn plist_contents() -> (r: String)
    ensures
        r@ == plist(),
{
    let mut s =
        "<?xml version=\"1.0\" encoding=\"UTF-8\"?>\n<!DOCTYPE plist PUBLIC \"-//Apple//DTD PLIST 1.0//EN\" \"http://www.apple.com/DTDs/PropertyList-1.0.dtd\">\n<plist version=\"1.0\">\n<dict>\n    <key>Label</key>\n    <string>".to_owned();
    s.append(MACOS_LABEL);
    s.append("</string>\n    <key>ProgramArguments</key>\n    <array>\n        <string>");
    s.append(MACOS_HELPER_BIN);
    s.append(
        "</string>\n        <string>run</string>\n    </array>\n    <key>RunAtLoad</key>\n    <true/>\n    <key>KeepAlive</key>\n    <true/>\n    <key>StandardErrorPath</key>\n    <string>",
    );
    s.append(MACOS_HELPER_LOG);
    s.append("</string>\n</dict>\n</plist>\n");
    s
}

/// One step of an installation.
#[derive(Debug)]
pub enum InstallStep {
    /// Stop a helper that runs; it may be that none does.
    Bootout,
    /// Copy the helper, owned by root.
    CopyHelper,
    /// Copy charon's directory, owned by root.
    CopyCharon,
    /// Copy OpenVPN's directory, owned by root.
    CopyOpenvpn,
    /// Record the version of the installing app in place of an earlier record.
    WriteStamp(String),
    /// Write the launchd description, owned by root.
    WritePlist(String),
    /// Start the helper.
    Bootstrap,
}

/// The content of an [`InstallStep`].
pub enum InstallStepView {
    Bootout,
    CopyHelper,
    CopyCharon,
    CopyOpenvpn,
    WriteStamp(Seq<char>),
    WritePlist(Seq<char>),
    Bootstrap,
}

impl View for InstallStep {
    type V = InstallStepView;

    open spec fn view(&self) -> InstallStepView {
        match self {
            InstallStep::Bootout => InstallStepView::Bootout,
            InstallStep::CopyHelper => InstallStepView::CopyHelper,
            InstallStep::CopyCharon => InstallStepView::CopyCharon,
            InstallStep::CopyOpenvpn => InstallStepView::CopyOpenvpn,
            InstallStep::WriteStamp(v) => InstallStepView::WriteStamp(v@),
            InstallStep::WritePlist(t) => InstallStepView::WritePlist(t@),
            InstallStep::Bootstrap => InstallStepView::Bootstrap,
        }
    }
}

/// The contents of a list of steps.
pub open spec fn step_views(v: Seq<InstallStep>) -> Seq<InstallStepView> {
    Seq::new(v.len(), |i: int| v[i]@)
}

/// The steps of an installation. The stamp is written before the helper comes up, so that no
/// client sees a running helper without one.
pub open spec fn install_steps(with_openvpn: bool, version: Option<Seq<char>>) -> Seq<
    InstallStepView,
> {
    let copies = if with_openvpn {
        seq![
            InstallStepView::Bootout,
            InstallStepView::CopyHelper,
            InstallStepView::CopyCharon,
            InstallStepView::CopyOpenvpn,
        ]
    } else {
        seq![InstallStepView::Bootout, InstallStepView::CopyHelper, InstallStepView::CopyCharon]
    };
    let stamp = match version {
        Some(v) => v,
        None => MACOS_VERSION_UNSTAMPED@,
    };
    copies + seq![
        InstallStepView::WriteStamp(stamp),
        InstallStepView::WritePlist(plist()),
        InstallStepView::Bootstrap,
    ]
}

/// What is reported of an installation.
pub open spec fn install_summary(with_openvpn: bool) -> Seq<char> {
    "helper installed and started ("@ + MACOS_LABEL@ + "); datapaths: IPsec"@ + (if with_openvpn {
        " + SSL"@
    } else {
        ""@
    })
}

/// Plans an installation from `charon_src`: the steps, and what to report once they are done. It
/// takes root, and a charon to install; OpenVPN is optional.
pub fn install(
    root: bool,
    has_charon: bool,
    charon_src: &str,
    with_openvpn: bool,
    version: Option<String>,
) -> (r: Result<(Vec<InstallStep>, String), String>)
    ensures
        match r {
            Ok(p) => root && has_charon && step_views(p.0@) == install_steps(
                with_openvpn,
                opt_view(version),
            ) && p.1@ == install_summary(with_openvpn),
            Err(e) => if !root {
                e@ == "installing the helper needs root"@
            } else {
                !has_charon && e@ == "no charon found at "@ + charon_src@
                    + " — build it with scripts/build-strongswan-macos.sh"@
            },
        },
{
    if !root {
        return Err("installing the helper needs root".to_owned());
    }
    if !has_charon {
        let mut s = "no charon found at ".to_owned();
        s.append(charon_src);
        s.append(" — build it with scripts/build-strongswan-macos.sh");
        return Err(s);
    }
    let ghost given = opt_view(version);
    let stamp = match version {
        Some(v) => v,
        None => MACOS_VERSION_UNSTAMPED.to_owned(),
    };
    let mut steps: Vec<InstallStep> = Vec::new();
    steps.push(InstallStep::Bootout);
    steps.push(InstallStep::CopyHelper);
    steps.push(InstallStep::CopyCharon);
    if with_openvpn {
        steps.push(InstallStep::CopyOpenvpn);
    }
    steps.push(InstallStep::WriteStamp(stamp));
    steps.push(InstallStep::WritePlist(plist_contents()));
    steps.push(InstallStep::Bootstrap);
    assert(step_views(steps@) =~= install_steps(with_openvpn, given));
    let mut s = "helper installed and started (".to_owned();
    s.append(MACOS_LABEL);
    s.append("); datapaths: IPsec");
    s.append(
        if with_openvpn {
            " + SSL"
        } else {
            ""
        },
    );
    Ok((steps, s))
}

/// What is said when launchd does not take the helper.
pub fn bootstrap_failed(stderr: &str) -> (r: String)
    ensures
        r@ == "launchctl bootstrap failed: "@ + trimmed(stderr@),
{
    let mut s = "launchctl bootstrap failed: ".to_owned();
    s.append(trim(stderr).as_str());
    s
}

/// One step of a removal. None of them may stop the ones after it.
#[derive(Debug, Clone, Copy, PartialEq, Eq, Structural)]
pub enum RemoveStep {
    KillOpenvpn,
    StopCharon,
    PurgeDns,
    Bootout,
    /// Remove a file or a directory, by its place among [`removed_paths`].
    Remove(usize),
    RemoveLog,
}

/// What a removal removes and reports on.
pub open spec fn removed() -> Seq<Seq<char>> {
    seq![MACOS_PLIST@, MACOS_HELPER_BIN@, MACOS_SUPPORT_DIR@, MACOS_RUN_DIR@]
}

/// What a removal removes and reports on.
pub fn removed_paths() -> (r: Vec<String>)
    ensures
        views(r@) == removed(),
{
    let r = vec![
        MACOS_PLIST.to_owned(),
        MACOS_HELPER_BIN.to_owned(),
        MACOS_SUPPORT_DIR.to_owned(),
        MACOS_RUN_DIR.to_owned(),
    ];
    assert(views(r@) =~= removed());
    r
}

/// The steps of a removal. The daemons are stopped first: only they can undo their routes and
/// devices, and only while the helper is there to ask.
pub open spec fn remove_steps() -> Seq<RemoveStep> {
    seq![
        RemoveStep::KillOpenvpn,
        RemoveStep::StopCharon,
        RemoveStep::PurgeDns,
        RemoveStep::Bootout,
        RemoveStep::Remove(0),
        RemoveStep::Remove(1),
        RemoveStep::Remove(2),
        RemoveStep::Remove(3),
        RemoveStep::RemoveLog,
    ]
}

/// Plans a removal. It takes root.
pub fn uninstall(root: bool) -> (r: Result<Vec<RemoveStep>, String>)
    ensures
        match r {
            Ok(steps) => root && steps@ == remove_steps(),
            Err(e) => !root && e@ == "removing the helper needs root"@,
        },
{
    if !root {
        return Err("removing the helper needs root".to_owned());
    }
    let steps = vec![
        RemoveStep::KillOpenvpn,
        RemoveStep::StopCharon,
        RemoveStep::PurgeDns,
        RemoveStep::Bootout,
        RemoveStep::Remove(0),
        RemoveStep::Remove(1),
        RemoveStep::Remove(2),
        RemoveStep::Remove(3),
        RemoveStep::RemoveLog,
    ];
    assert(steps@ =~= remove_steps());
    Ok(steps)
}

/// Those of the first `n` paths that are there.
pub open spec fn remaining(paths: Seq<Seq<char>>, present: Seq<bool>, n: int) -> Seq<Seq<char>>
    decreases n,
{
    if n <= 0 {
        Seq::empty()
    } else if n <= present.len() && present[n - 1] {
        remaining(paths, present, n - 1).push(paths[n - 1])
    } else {
        remaining(paths, present, n - 1)
    }
}

/// Reports a removal by what is still there, not by what was attempted.
pub fn removal_report(present: &Vec<bool>) -> (r: Result<String, String>)
    ensures
        ({
            let left = remaining(removed(), present@, removed().len() as int);
            match r {
                Ok(s) => left.len() == 0 && s@ == "helper removed"@,
                Err(e) => left.len() > 0 && e@ == "could not remove: "@ + join_all(left, ", "@),
            }
        }),
{
    let paths = removed_paths();
    let ghost all = removed();
    let mut left: Vec<String> = Vec::new();
    assert(views(left@) =~= Seq::empty());
    let mut i: usize = 0;
    while i < paths.len()
        invariant
            i <= paths@.len(),
            all == views(paths@),
            views(left@) == remaining(all, present@, i as int),
        decreases paths@.len() - i,
    {
        assert(all[i as int] == paths@[i as int]@);
        if i < present.len() && present[i] {
            let ghost before = left@;
            let p = paths[i].clone();
            let ghost seen = p@;
            left.push(p);
            assert(views(left@) =~= views(before).push(seen));
        }
        i = i + 1;
    }
    if left.len() == 0 {
        return Ok("helper removed".to_owned());
    }
    let mut s = "could not remove: ".to_owned();
    s.append(join(&left, ", ").as_str());
    Err(s)
}

/// Whether the helper is installed: its description and its binary are there.
pub fn installed(has_plist: bool, has_bin: bool) -> (r: bool)
    ensures
        r == (has_plist && has_bin),
{
    has_plist && has_bin
}

/// The version in a text that holds one: trimmed, none when that leaves nothing.
pub fn installed_version(text: &str) -> (r: Option<String>)
    ensures
        match r {
            Some(v) => v@ == trimmed(text@) && v@.len() > 0,
            None => trimmed(text@).len() == 0,
        },
{
    let v = trim(text);
    if v.as_str().is_empty() {
        None
    } else {
        Some(v)
    }
}

/// A path below a directory.
pub open spec fn below(dir: Seq<char>, rel: Seq<char>) -> Seq<char> {
    if dir.len() == 0 || ends(dir, "/"@) {
        dir + rel
    } else {
        dir + "/"@ + rel
    }
}

fn join_path(dir: &str, rel: &str) -> (r: String)
    ensures
        r@ == below(dir@, rel@),
{
    let mut s = dir.to_owned();
    if !dir.is_empty() && !ends_with(dir, "/") {
        s.append("/");
    }
    s.append(rel);
    s
}

/// The first path that is present, from `i` on.
pub open spec fn first_present(paths: Seq<Seq<char>>, present: Seq<bool>, i: int) -> Option<
    Seq<char>,
>
    decreases paths.len() - i,
{
    if i < 0 || i >= paths.len() {
        None
    } else if i < present.len() && present[i] {
        Some(paths[i])
    } else {
        first_present(paths, present, i + 1)
    }
}

/// The first of some candidates that is there.
pub fn pick(paths: &Vec<String>, present: &Vec<bool>) -> (r: Option<String>)
    ensures
        match r {
            Some(p) => first_present(views(paths@), present@, 0) == Some(p@),
            None => first_present(views(paths@), present@, 0) is None,
        },
{
    let ghost all = views(paths@);
    let mut i: usize = 0;
    while i < paths.len()
        invariant
            i <= paths@.len(),
            all == views(paths@),
            first_present(all, present@, 0) == first_present(all, present@, i as int),
        decreases paths@.len() - i,
    {
        assert(all[i as int] == paths@[i as int]@);
        if i < present.len() && present[i] {
            return Some(paths[i].clone());
        }
        i = i + 1;
    }
    None
}

/// Where charon's directory may lie, seen from the directory of the running binary.
pub open spec fn charon_places(dir: Seq<char>) -> Seq<Seq<char>> {
    seq![
        below(dir, "../charon"@),
        below(dir, "../Resources/charon"@),
        below(dir, "charon"@),
        below(dir, "../../out/strongswan-macos"@),
    ]
}

/// Where OpenVPN's directory may lie, seen from the directory of the running binary.
pub open spec fn openvpn_places(dir: Seq<char>) -> Seq<Seq<char>> {
    seq![
        below(dir, "../openvpn"@),
        below(dir, "../Resources/openvpn"@),
        below(dir, "openvpn"@),
        below(dir, "../../out/openvpn-macos"@),
    ]
}

/// Where charon's directory may lie.
pub fn charon_candidates(dir: &str) -> (r: Vec<String>)
    ensures
        views(r@) == charon_places(dir@),
{
    let r = vec![
        join_path(dir, "../charon"),
        join_path(dir, "../Resources/charon"),
        join_path(dir, "charon"),
        join_path(dir, "../../out/strongswan-macos"),
    ];
    assert(views(r@) =~= charon_places(dir@));
    r
}

/// Where OpenVPN's directory may lie.
pub fn openvpn_candidates(dir: &str) -> (r: Vec<String>)
    ensures
        views(r@) == openvpn_places(dir@),
{
    let r = vec![
        join_path(dir, "../openvpn"),
        join_path(dir, "../Resources/openvpn"),
        join_path(dir, "openvpn"),
        join_path(dir, "../../out/openvpn-macos"),
    ];
    assert(views(r@) =~= openvpn_places(dir@));
    r
}

/// charon's directory: the first candidate that holds a charon, as `present` says of each.
pub fn bundled_charon_dir(dir: &str, present: &Vec<bool>) -> (r: Option<String>)
    ensures
        match r {
            Some(p) => first_present(charon_places(dir@), present@, 0) == Some(p@),
            None => first_present(charon_places(dir@), present@, 0) is None,
        },
{
    pick(&charon_candidates(dir), present)
}

/// OpenVPN's directory: the first candidate that holds one, as `present` says of each.
pub fn bundled_openvpn_dir(dir: &str, present: &Vec<bool>) -> (r: Option<String>)
    ensures
        match r {
            Some(p) => first_present(openvpn_places(dir@), present@, 0) == Some(p@),
            None => first_present(openvpn_places(dir@), present@, 0) is None,
        },
{
    pick(&openvpn_candidates(dir), present)
}

/// Nothing is started before everything that runs as root has been copied and described.
pub proof fn law_helper_starts_last(with_openvpn: bool, version: Option<Seq<char>>)
    ensures
        ({
            let steps = install_steps(with_openvpn, version);
            steps.last() == InstallStepView::Bootstrap && forall|i: int|
                0 <= i < steps.len() - 1 ==> #[trigger] steps[i] != InstallStepView::Bootstrap
        }),
{
}

/// The daemons are stopped and DNS is put back before the helper is taken away.
pub proof fn law_daemons_stop_before_the_helper()
    ensures
        remove_steps().take(4) == seq![
            RemoveStep::KillOpenvpn,
            RemoveStep::StopCharon,
            RemoveStep::PurgeDns,
            RemoveStep::Bootout,
        ],
{
    assert(remove_steps().take(4) =~= seq![
        RemoveStep::KillOpenvpn,
        RemoveStep::StopCharon,
        RemoveStep::PurgeDns,
        RemoveStep::Bootout,
    ]);
}

/// An installation takes the running helper down first, copies the helper and charon in any case
/// and OpenVPN only when there is one, and leaves the version that it was given, or a mark that
/// there was none.
pub proof fn law_install_copies_what_there_is(with_openvpn: bool, version: Option<Seq<char>>)
    ensures
        ({
            let steps = install_steps(with_openvpn, version);
            &&& steps[0] == InstallStepView::Bootout
            &&& steps.contains(InstallStepView::CopyHelper)
            &&& steps.contains(InstallStepView::CopyCharon)
            &&& steps.contains(InstallStepView::CopyOpenvpn) <==> with_openvpn
            &&& version matches Some(v) ==> steps.contains(InstallStepView::WriteStamp(v))
            &&& version is None ==> steps.contains(
                InstallStepView::WriteStamp("unstamped"@),
            )
            &&& steps.contains(InstallStepView::WritePlist(plist()))
            &&& steps.len() == if with_openvpn {
                7int
            } else {
                6int
            }
        }),
{
    let steps = install_steps(with_openvpn, version);
    let k: int = if with_openvpn {
        4
    } else {
        3
    };
    assert(steps[1] == InstallStepView::CopyHelper);
    assert(steps[2] == InstallStepView::CopyCharon);
    if with_openvpn {
        assert(steps[3] == InstallStepView::CopyOpenvpn);
    }
    assert(steps[k] is WriteStamp);
    assert(steps[k + 1] == InstallStepView::WritePlist(plist()));
}

/// The description of the helper has its label, runs its program, keeps it alive, and sends its
/// errors to its log.
pub proof fn law_description_names_the_helper()
    ensures
        has(
            plist(),
            "dev.jackolix.ipsecvpn.helper"@
                + "</string>\n    <key>ProgramArguments</key>\n    <array>\n        <string>"@
                + "/Library/PrivilegedHelperTools/dev.jackolix.ipsecvpn.helper"@,
        ),
        has(
            plist(),
            "</string>\n        <string>run</string>\n    </array>\n    <key>RunAtLoad</key>\n    <true/>\n    <key>KeepAlive</key>\n    <true/>\n    <key>StandardErrorPath</key>\n    <string>"@
                + "/var/log/ipsec-vpn-helper.log"@ + "</string>\n</dict>\n</plist>\n"@,
        ),
{
    let t0 =
        "<?xml version=\"1.0\" encoding=\"UTF-8\"?>\n<!DOCTYPE plist PUBLIC \"-//Apple//DTD PLIST 1.0//EN\" \"http://www.apple.com/DTDs/PropertyList-1.0.dtd\">\n<plist version=\"1.0\">\n<dict>\n    <key>Label</key>\n    <string>"@;
    let t1 = MACOS_LABEL@;
    let t2 = "</string>\n    <key>ProgramArguments</key>\n    <array>\n        <string>"@;
    let t3 = MACOS_HELPER_BIN@;
    let t4 =
        "</string>\n        <string>run</string>\n    </array>\n    <key>RunAtLoad</key>\n    <true/>\n    <key>KeepAlive</key>\n    <true/>\n    <key>StandardErrorPath</key>\n    <string>"@;
    let t5 = MACOS_HELPER_LOG@;
    let t6 = "</string>\n</dict>\n</plist>\n"@;
    let s3 = t0 + t1 + t2 + t3;
    assert(plist() == s3 + t4 + t5 + t6);
    lemma_row_stands(t0, t1, t2, t3);
    lemma_stands_before(s3, t4, t1 + t2 + t3);
    lemma_stands_before(s3 + t4, t5, t1 + t2 + t3);
    lemma_stands_before(s3 + t4 + t5, t6, t1 + t2 + t3);
    lemma_row_stands(s3, t4, t5, t6);
}

/// The summary names the helper, and SSL only when OpenVPN was installed.
pub proof fn law_install_says_what_it_brought()
    ensures
        install_summary(true) == "helper installed and started ("@
            + "dev.jackolix.ipsecvpn.helper"@ + "); datapaths: IPsec"@ + " + SSL"@,
        install_summary(false) == "helper installed and started ("@
            + "dev.jackolix.ipsecvpn.helper"@ + "); datapaths: IPsec"@,
{
    reveal_strlit("");
    assert(install_summary(false) =~= "helper installed and started ("@
        + "dev.jackolix.ipsecvpn.helper"@ + "); datapaths: IPsec"@);
}

/// A removal takes away everything that was installed: each path has a step, and after them the
/// log goes.
pub proof fn law_removal_takes_everything(k: int)
    requires
        0 <= k < removed().len(),
    ensures
        removed().contains("/Library/LaunchDaemons/dev.jackolix.ipsecvpn.helper.plist"@),
        removed().contains("/Library/PrivilegedHelperTools/dev.jackolix.ipsecvpn.helper"@),
        removed().contains("/Library/Application Support/dev.jackolix.ipsecvpn"@),
        removed().contains("/var/run/ipsec-vpn"@),
        removed().len() == 4,
        remove_steps()[4 + k] == RemoveStep::Remove(k as usize),
        remove_steps().last() == RemoveStep::RemoveLog,
        remove_steps().len() == 5 + removed().len(),
{
    assert(removed()[0] == MACOS_PLIST@);
    assert(removed()[1] == MACOS_HELPER_BIN@);
    assert(removed()[2] == MACOS_SUPPORT_DIR@);
    assert(removed()[3] == MACOS_RUN_DIR@);
}

proof fn lemma_remaining_prefix(
    paths: Seq<Seq<char>>,
    present: Seq<bool>,
    path: Seq<char>,
    there: bool,
    n: int,
)
    requires
        paths.len() == present.len(),
        0 <= n <= paths.len(),
    ensures
        remaining(paths + seq![path], present + seq![there], n) == remaining(paths, present, n),
    decreases n,
{
    if n > 0 {
        lemma_remaining_prefix(paths, present, path, there, n - 1);
        assert((paths + seq![path])[n - 1] == paths[n - 1]);
        assert((present + seq![there])[n - 1] == present[n - 1]);
    }
}

/// What is reported as left behind is exactly what is still there, in order.
pub proof fn law_leftovers_are_those_still_there(
    paths: Seq<Seq<char>>,
    present: Seq<bool>,
    path: Seq<char>,
    there: bool,
)
    requires
        paths.len() == present.len(),
    ensures
        remaining(Seq::empty(), Seq::empty(), 0).len() == 0,
        remaining(paths + seq![path], present + seq![there], paths.len() as int + 1) == remaining(
            paths,
            present,
            paths.len() as int,
        ) + (if there {
            seq![path]
        } else {
            Seq::empty()
        }),
{
    lemma_remaining_prefix(paths, present, path, there, paths.len() as int);
    let p = paths + seq![path];
    let q = present + seq![there];
    let n = paths.len() as int;
    assert(p[n] == path && q[n] == there);
    assert(remaining(p, q, n + 1) =~= remaining(paths, present, n) + (if there {
        seq![path]
    } else {
        Seq::empty()
    }));
}

/// Of several places the first that is there is taken; none only when none is there.
pub proof fn law_first_place_is_taken(paths: Seq<Seq<char>>, present: Seq<bool>)
    requires
        paths.len() == present.len(),
    ensures
        match first_present(paths, present, 0) {
            Some(p) => exists|i: int|
                0 <= i < paths.len() && #[trigger] present[i] && paths[i] == p && forall|k: int|
                    0 <= k < i ==> !(#[trigger] present[k]),
            None => forall|k: int| 0 <= k < paths.len() ==> !(#[trigger] present[k]),
        },
{
    lemma_first_present(paths, present, 0);
}

proof fn lemma_first_present(paths: Seq<Seq<char>>, present: Seq<bool>, i: int)
    requires
        paths.len() == present.len(),
        0 <= i <= paths.len(),
        forall|k: int| 0 <= k < i ==> !(#[trigger] present[k]),
    ensures
        match first_present(paths, present, i) {
            Some(p) => exists|j: int|
                0 <= j < paths.len() && #[trigger] present[j] && paths[j] == p && forall|k: int|
                    0 <= k < j ==> !(#[trigger] present[k]),
            None => forall|k: int| 0 <= k < paths.len() ==> !(#[trigger] present[k]),
        },
    decreases paths.len() - i,
{
    if i < paths.len() && !present[i] {
        lemma_first_present(paths, present, i + 1);
    }
}

/// Both programs are looked for next to the bundle's binaries, in its resources, beside the
/// program itself and in a build tree, in that order and each under its own name.
pub proof fn law_programs_have_their_places(dir: Seq<char>)
    requires
        dir.len() > 0,
        dir.last() != '/',
    ensures
        charon_places(dir) == seq![
            dir + "/../charon"@,
            dir + "/../Resources/charon"@,
            dir + "/charon"@,
            dir + "/../../out/strongswan-macos"@,
        ],
        openvpn_places(dir) == seq![
            dir + "/../openvpn"@,
            dir + "/../Resources/openvpn"@,
            dir + "/openvpn"@,
            dir + "/../../out/openvpn-macos"@,
        ],
{
    reveal_strlit("/");
    assert(!ends(dir, "/"@)) by {
        if ends(dir, "/"@) {
            assert(dir.subrange(dir.len() - 1, dir.len() as int)[0] == '/');
        }
    }
    reveal_strlit("../charon");
    reveal_strlit("/../charon");
    reveal_strlit("../Resources/charon");
    reveal_strlit("/../Resources/charon");
    reveal_strlit("charon");
    reveal_strlit("/charon");
    reveal_strlit("../../out/strongswan-macos");
    reveal_strlit("/../../out/strongswan-macos");
    reveal_strlit("../openvpn");
    reveal_strlit("/../openvpn");
    reveal_strlit("../Resources/openvpn");
    reveal_strlit("/../Resources/openvpn");
    reveal_strlit("openvpn");
    reveal_strlit("/openvpn");
    reveal_strlit("../../out/openvpn-macos");
    reveal_strlit("/../../out/openvpn-macos");
    lemma_below(dir, "../charon"@, "/../charon"@);
    lemma_below(dir, "../Resources/charon"@, "/../Resources/charon"@);
    lemma_below(dir, "charon"@, "/charon"@);
    lemma_below(dir, "../../out/strongswan-macos"@, "/../../out/strongswan-macos"@);
    lemma_below(dir, "../openvpn"@, "/../openvpn"@);
    lemma_below(dir, "../Resources/openvpn"@, "/../Resources/openvpn"@);
    lemma_below(dir, "openvpn"@, "/openvpn"@);
    lemma_below(dir, "../../out/openvpn-macos"@, "/../../out/openvpn-macos"@);
}

proof fn lemma_below(dir: Seq<char>, rel: Seq<char>, path: Seq<char>)
    requires
        dir.len() > 0,
        !ends(dir, "/"@),
        path =~= "/"@ + rel,
    ensures
        below(dir, rel) == dir + path,
{
    assert(dir + "/"@ + rel =~= dir + path);
}

} // verus!
