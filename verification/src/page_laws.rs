//! What the workspaces page does, and how the browser and the server find each
//! other's files and endpoints.
use vstd::prelude::*;

use crate::api::{abort_url, check_status, failed_to, resume_url, retry_url};
use crate::dto::{RepoDto, WorkspaceDto};
use crate::http;
use crate::http::{asset_path, asset_reply, events_url, AssetReply};
use crate::new_run;
use crate::paths;
use crate::run_store;
use crate::run_store::{is_run_file, run_file, run_tmp_file};
use crate::text;
use crate::workspaces_view;
use crate::workspaces_view::{
    new_run_link, root_basename, workspace_summary, WorkspacesPage,
};

verus! {

/// A new page shows nothing, does nothing and has nothing to complain about.
pub proof fn law_a_new_page_is_empty(r: WorkspacesPage)
    requires
        call_ensures(WorkspacesPage::new, (), r),
    ensures
        r@.workspaces.len() == 0 && r@.found.len() == 0,
        r@.root.len() == 0 && r@.group_name.len() == 0,
        !r@.scanning && !r@.saving,
        r@.load_error is None && r@.scan_error is None && r@.save_error is None,
        forall|x: Seq<char>| !r@.checked.contains(x),
{
}

/// A failed load keeps the list that is shown and says why; a good one shows
/// what it loaded.
pub proof fn law_failed_loads_keep_the_list(
    page: &mut WorkspacesPage,
    list: Result<Vec<WorkspaceDto>, String>,
)
    requires
        call_ensures(WorkspacesPage::loaded, (page, list), ()),
    ensures
        list matches Ok(all) ==> final(page)@.workspaces == text::views(all@)
            && final(page)@.load_error is None,
        list matches Err(e) ==> final(page)@.workspaces == old(page)@.workspaces
            && final(page)@.load_error == Some(e@),
        final(page)@.found == old(page)@.found && final(page)@.checked == old(page)@.checked,
{
}

/// A scan needs a folder that is not blank; what it finds is checked, all of it,
/// and names the group after the folder. A failed scan says why.
pub proof fn law_scans_check_what_they_find(
    page: &mut WorkspacesPage,
    dir: Option<String>,
    done: &mut WorkspacesPage,
    root: &str,
    reply: Result<Vec<RepoDto>, String>,
    name: String,
    i: int,
    x: Seq<char>,
)
    requires
        call_ensures(WorkspacesPage::start_scan, (page,), dir),
        call_ensures(WorkspacesPage::scan_done, (done, root, reply), ()),
        call_ensures(root_basename, (root,), name),
    ensures
        dir is Some <==> text::trimmed(old(page)@.root).len() > 0,
        dir is Some ==> dir->0@ == old(page)@.root && final(page)@.scanning
            && final(page)@.scan_error is None,
        dir is None ==> final(page)@.scan_error == Some("Enter a folder path before scanning."@)
            && final(page)@.scanning == old(page)@.scanning,
        reply matches Ok(repos) ==> {
            &&& final(done)@.found == repos@
            &&& final(done)@.group_name == name@
            &&& 0 <= i < repos@.len() ==> final(done)@.checked.contains(repos@[i].path@)
            &&& final(done)@.checked.contains(x) ==> exists|k: int|
                0 <= k < repos@.len() && (#[trigger] repos@[k]).path@ == x
            &&& final(done)@.scan_error is None && !final(done)@.scanning
        },
        reply matches Err(e) ==> final(done)@.scan_error == Some(e@) && !final(done)@.scanning
            && final(done)@.found == old(done)@.found && final(done)@.checked == old(done)@.checked,
{
    match reply {
        Ok(repos) => {
            let all = repos@.map_values(|r: RepoDto| r.path@);
            if final(done)@.checked.contains(x) {
                assert(all.contains(x));
                let k = choose|k: int| 0 <= k < all.len() && all[k] == x;
                assert(repos@[k].path@ == x);
            }
            if 0 <= i < repos@.len() {
                assert(all[i] == repos@[i].path@);
                assert(all.contains(repos@[i].path@));
                assert(all.to_set().contains(repos@[i].path@));
            }
        },
        Err(_) => {},
    }
}

/// Toggling a path checks it or unchecks it, and no other.
pub proof fn law_toggles_change_one_box(page: &mut WorkspacesPage, path: &str, x: Seq<char>)
    requires
        call_ensures(WorkspacesPage::toggle, (page, path), ()),
    ensures
        final(page)@.checked.contains(path@) == !old(page)@.checked.contains(path@),
        x != path@ ==> final(page)@.checked.contains(x) == old(page)@.checked.contains(x),
        final(page)@.found == old(page)@.found && final(page)@.group_name == old(page)@.group_name,
{
}

/// A save sends the checked repositories, in the order they were found, under
/// the trimmed name. It needs a name and a repository, and says what is missing.
pub proof fn law_saves_send_what_is_checked(page: &mut WorkspacesPage, r: Option<WorkspaceDto>)
    requires
        call_ensures(WorkspacesPage::save, (page,), r),
    ensures
        ({
            let m = old(page)@;
            let named = text::trimmed(m.group_name).len() > 0;
            let picked = m.found.filter(|repo: RepoDto| m.checked.contains(repo.path@));
            &&& r is Some <==> named && picked.len() > 0
            &&& r matches Some(ws) ==> ws.name@ == text::trimmed(m.group_name) && ws.repos@
                == picked && final(page)@.saving && final(page)@.save_error is None
            &&& r is None ==> final(page)@.saving == m.saving
            &&& !named && picked.len() == 0 ==> final(page)@.save_error == Some(
                "Enter a workspace name and check at least one repo before saving."@,
            )
            &&& !named && picked.len() > 0 ==> final(page)@.save_error == Some(
                "Enter a workspace name before saving."@,
            )
            &&& named && picked.len() == 0 ==> final(page)@.save_error == Some(
                "Check at least one repo before saving."@,
            )
        }),
{
}

/// A saved group clears the wizard and has the list loaded again; a failed save
/// keeps everything and says why.
pub proof fn law_saved_groups_clear_the_wizard(
    page: &mut WorkspacesPage,
    reply: Result<(), String>,
    r: bool,
)
    requires
        call_ensures(WorkspacesPage::saved, (page, reply), r),
    ensures
        r <==> reply is Ok,
        !final(page)@.saving,
        reply is Ok ==> final(page)@.found.len() == 0 && final(page)@.root.len() == 0
            && final(page)@.group_name.len() == 0 && final(page)@.save_error is None,
        reply is Ok ==> forall|x: Seq<char>| !final(page)@.checked.contains(x),
        reply matches Err(e) ==> final(page)@.save_error == Some(e@) && final(page)@.found
            == old(page)@.found && final(page)@.checked == old(page)@.checked
            && final(page)@.group_name == old(page)@.group_name,
        final(page)@.workspaces == old(page)@.workspaces,
{
}

/// The endpoints of a run and of one epic of it, the page that starts a run, and
/// the message of a step that failed.
pub proof fn law_endpoints_name_their_run(
    run: &str,
    epic: &str,
    a: String,
    b: String,
    c: String,
    name: &str,
    d: String,
    what: &str,
    why: &str,
    e: String,
)
    requires
        call_ensures(failed_to, (what, why), e),
        call_ensures(abort_url, (run,), a),
        call_ensures(resume_url, (run,), b),
        call_ensures(retry_url, (run, epic), c),
        call_ensures(new_run_link, (name,), d),
    ensures
        a@ == "/api/runs/"@ + run@ + "/abort"@,
        b@ == "/api/runs/"@ + run@ + "/resume"@,
        c@ == "/api/runs/"@ + run@ + "/epics/"@ + epic@ + "/retry"@,
        d@ == "/run/new?workspace="@ + name@,
        e@ == "failed to "@ + what@ + ": "@ + why@,
{
}

/// A reply is a success just where its status is one of the two hundreds; else
/// the message says what failed, the status and the body.
pub proof fn law_only_two_hundreds_are_successes(
    what: &str,
    status: u16,
    body: &str,
    r: Result<(), String>,
    n: String,
)
    requires
        call_ensures(check_status, (what, status, body), r),
        call_ensures(text::decimal, (status as u64,), n),
    ensures
        r is Ok <==> 200 <= status <= 299,
        r matches Err(msg) ==> msg@ == what@ + " failed with status "@ + n@ + ": "@ + body@,
{
}

/// A path names the asset without the slashes before it, or the shell page. An
/// asset that is not there is answered with the shell page, and where that is
/// missing too, nothing is found.
pub proof fn law_missing_assets_fall_back_to_the_shell(
    path: &str,
    has_asset: bool,
    has_index: bool,
    r: AssetReply,
    name: String,
)
    requires
        call_ensures(asset_reply, (path, has_asset, has_index), r),
        call_ensures(asset_path, (path,), name),
    ensures
        (forall|i: int| 0 <= i < path@.len() ==> path@[i] == '/') ==> name@ == "index.html"@,
        (exists|i: int| 0 <= i < path@.len() && path@[i] != '/') ==> exists|k: int|
            0 <= k < path@.len() && name@ == #[trigger] path@.skip(k) && path@[k] != '/' && forall|
                i: int,
            | 0 <= i < k ==> path@[i] == '/',
        r is NotFound <==> !has_asset && !has_index,
        r matches AssetReply::Asset { file, media_type } ==> {
            &&& has_asset ==> file@ == name@
            &&& !has_asset ==> file@ == "index.html"@
            &&& media_type@ == http::media_type(name@)
        },
{
    lemma_without_slashes(path@);
    if exists|i: int| 0 <= i < path@.len() && path@[i] != '/' {
        let k = choose|k: int|
            0 <= k <= path@.len() && http::without_slashes(path@) == #[trigger] path@.skip(k) && (k
                < path@.len() ==> path@[k] != '/') && forall|i: int| 0 <= i < k ==> path@[i] == '/';
        let i = choose|i: int| 0 <= i < path@.len() && path@[i] != '/';
        assert(k <= i);
        assert(name@ == path@.skip(k));
    } else {
        let k = choose|k: int|
            0 <= k <= path@.len() && http::without_slashes(path@) == #[trigger] path@.skip(k) && (k
                < path@.len() ==> path@[k] != '/') && forall|i: int| 0 <= i < k ==> path@[i] == '/';
        assert(k == path@.len());
        assert(path@.skip(k).len() == 0);
    }
}

proof fn lemma_without_slashes(s: Seq<char>)
    ensures
        exists|k: int|
            0 <= k <= s.len() && http::without_slashes(s) == #[trigger] s.skip(k) && (k < s.len()
                ==> s[k] != '/') && forall|i: int| 0 <= i < k ==> s[i] == '/',
    decreases s.len(),
{
    if s.len() > 0 && s[0] == '/' {
        let rest = s.drop_first();
        lemma_without_slashes(rest);
        let j = choose|j: int|
            0 <= j <= rest.len() && http::without_slashes(rest) == #[trigger] rest.skip(j) && (j
                < rest.len() ==> rest[j] != '/') && forall|i: int| 0 <= i < j ==> rest[i] == '/';
        let k = j + 1;
        assert(rest.skip(j) =~= s.skip(k));
        assert forall|i: int| 0 <= i < k implies s[i] == '/' by {
            if i > 0 {
                assert(s[i] == rest[i - 1]);
            }
        }
        if k < s.len() {
            assert(s[k] == rest[j]);
        }
        assert(http::without_slashes(s) == s.skip(k));
    } else {
        assert(s.skip(0) =~= s);
        assert(http::without_slashes(s) == s.skip(0));
    }
}

/// The events of a run come over a secure socket just where the page does.
pub proof fn law_events_are_as_secure_as_the_page(
    protocol: &str,
    host: &str,
    run: &str,
    r: String,
)
    requires
        call_ensures(events_url, (protocol, host, run), r),
    ensures
        protocol@ == "https:"@ ==> r@ == "wss"@ + "://"@ + host@ + "/api/runs/"@ + run@
            + "/events"@,
        protocol@ != "https:"@ ==> r@ == "ws"@ + "://"@ + host@ + "/api/runs/"@ + run@
            + "/events"@,
{
}

/// A run is kept in a file named by its id, written under another name first
/// that is not taken for a run.
pub proof fn law_runs_have_their_own_files(
    dir: &str,
    id: &str,
    file: String,
    tmp: String,
    name: &str,
    kept: bool,
    partial: &str,
    loaded: bool,
)
    requires
        call_ensures(run_file, (dir, id), file),
        call_ensures(run_tmp_file, (dir, id), tmp),
        id@.len() > 0,
        name@ == id@ + ".json"@,
        partial@ == id@ + ".json.tmp"@,
        call_ensures(is_run_file, (name,), kept),
        call_ensures(is_run_file, (partial,), loaded),
    ensures
        file@ == paths::joined_path(dir@, name@),
        tmp@ == paths::joined_path(dir@, partial@),
        kept,
        !loaded,
{
    run_store::law_only_finished_files_are_loaded(id@);
}

/// Without repositories there is no folder to refine in.
pub proof fn law_no_repositories_have_no_folder(repos: &Vec<RepoDto>, r: String)
    requires
        repos@.len() == 0,
        call_ensures(new_run::common_root, (repos,), r),
    ensures
        r@.len() == 0,
{
}

/// The refine passes of one repository run in the folder it is in.
pub proof fn law_one_repository_is_refined_in_its_folder(repos: &Vec<RepoDto>, r: String, at: int)
    requires
        repos@.len() == 1,
        call_ensures(new_run::common_root, (repos,), r),
        -1 <= at < repos@[0].path@.len(),
        at >= 0 ==> repos@[0].path@[at] == '/',
        forall|i: int| at < i < repos@[0].path@.len() ==> repos@[0].path@[i] != '/',
    ensures
        at > 0 ==> r@ == repos@[0].path@.take(at),
        at == 0 ==> r@ == "/"@,
        at < 0 ==> r@ == repos@[0].path@,
{
    lemma_last_slash(repos@[0].path@, at);
}

proof fn lemma_last_slash(path: Seq<char>, at: int)
    requires
        -1 <= at < path.len(),
        at >= 0 ==> path[at] == '/',
        forall|i: int| at < i < path.len() ==> path[i] != '/',
    ensures
        new_run::last_slash(path) == at,
    decreases path.len(),
{
    if path.len() > 0 && at < path.len() - 1 {
        assert(path[path.len() - 1] != '/');
        lemma_last_slash(path.drop_last(), at);
    }
}

/// The first `n` pieces between slashes are the same in all the paths.
pub open spec fn all_start_alike(repos: Seq<RepoDto>, n: nat) -> bool {
    forall|i: int|
        0 <= i < repos.len() ==> {
            let own = text::parts_of((#[trigger] repos[i]).path@, '/');
            n <= own.len() && own.take(n as int) == text::parts_of(repos[0].path@, '/').take(
                n as int,
            )
        }
}

/// The refine passes of several repositories run in the longest folder that the
/// paths of all of them start with, piece by piece, and in the first repository
/// where that is no more than the root.
pub proof fn law_several_repositories_are_refined_in_what_they_share(
    repos: &Vec<RepoDto>,
    r: String,
    n: nat,
    k: int,
)
    requires
        repos@.len() > 1,
        call_ensures(new_run::common_root, (repos,), r),
    ensures
        ({
            let pieces = text::parts_of(r@, '/');
            let first = text::parts_of(repos@[0].path@, '/');
            let named = all_start_alike(repos@, n) && 0 <= k < n && first[k].len() > 0;
            &&& named || r@ != repos@[0].path@ ==> all_start_alike(repos@, pieces.len()) && pieces
                == first.take(pieces.len() as int)
            &&& named ==> n <= pieces.len()
            &&& r@ != repos@[0].path@ && all_start_alike(repos@, n) ==> n <= pieces.len()
            &&& r@ != repos@[0].path@ ==> r@.len() > 0 && r@ != "/"@
        }),
{
    let m = choose|m: nat| #[trigger]
        new_run::most_shared(repos@, m) && r@ == new_run::shared_folder(repos@[0].path@, m);
    let first = text::parts_of(repos@[0].path@, '/');
    assert(new_run::share_pieces(repos@, m));
    assert(repos@[0].path@ == repos@[0].path@);
    assert(first.len() >= m);
    assert(all_start_alike(repos@, m));
    assert(all_start_alike(repos@, n) ==> n <= m) by {
        if all_start_alike(repos@, n) {
            assert(new_run::share_pieces(repos@, n));
        }
    }
    let shared = first.take(m as int);
    text::lemma_parts_hold_no_separator(repos@[0].path@, '/');
    reveal_strlit("/");
    assert("/"@ =~= seq!['/']);
    let folder = text::joined(shared, "/"@);
    assert forall|i: int| 0 <= i < shared.len() implies !(#[trigger] shared[i]).contains('/') by {
        assert(shared[i] == first[i]);
    }
    if shared.len() > 0 {
        text::law_joined_parts_split(shared, '/');
        assert(text::parts_of(folder, '/') == shared);
    }
    if all_start_alike(repos@, n) && 0 <= k < n && first[k].len() > 0 {
        assert(shared[k] == first[k]);
        lemma_parts_of_the_root();
        assert(folder.len() != 0) by {
            if folder.len() == 0 {
                assert(folder =~= Seq::<char>::empty());
                assert(shared[k].len() == 0);
            }
        }
        assert(folder != "/"@) by {
            if folder == "/"@ {
                assert(shared[k].len() == 0);
            }
        }
        assert(r@ == folder);
    }
    if r@ != repos@[0].path@ {
        assert(r@ == folder);
        assert(shared.len() > 0) by {
            if shared.len() == 0 {
                assert(folder.len() == 0);
            }
        }
    }
}

proof fn lemma_parts_of_the_root()
    ensures
        text::parts_of(Seq::empty(), '/') == seq![Seq::<char>::empty()],
        text::parts_of("/"@, '/') == seq![Seq::<char>::empty(), Seq::<char>::empty()],
{
    let e = Seq::<char>::empty();
    reveal_strlit("/");
    assert("/"@ =~= seq!['/']);
    let one = seq![e];
    let two = seq![e, e];
    assert(text::joined(one, seq!['/']) =~= e) by {
        reveal_with_fuel(text::joined, 3);
    }
    text::law_joined_parts_split(one, '/');
    assert(text::joined(two, seq!['/']) =~= "/"@) by {
        reveal_with_fuel(text::joined, 3);
    }
    text::law_joined_parts_split(two, '/');
}

/// A group is named by the last piece of its folder that is not empty, and by
/// the whole folder where there is none.
pub proof fn law_groups_are_named_by_their_folder(root: &str, r: String, i: int)
    requires
        call_ensures(root_basename, (root,), r),
        -1 <= i < text::parts_of(root@, '/').len(),
        i >= 0 ==> text::parts_of(root@, '/')[i].len() > 0,
        forall|j: int|
            i < j < text::parts_of(root@, '/').len() ==> (#[trigger] text::parts_of(
                root@,
                '/',
            )[j]).len() == 0,
    ensures
        i >= 0 ==> r@ == text::parts_of(root@, '/')[i],
        i < 0 ==> r@ == root@,
{
    lemma_last_piece(text::parts_of(root@, '/'), i);
}

proof fn lemma_last_piece(pieces: Seq<Seq<char>>, i: int)
    requires
        -1 <= i < pieces.len(),
        i >= 0 ==> pieces[i].len() > 0,
        forall|j: int| i < j < pieces.len() ==> (#[trigger] pieces[j]).len() == 0,
    ensures
        i >= 0 ==> workspaces_view::last_piece(pieces) == Some(pieces[i]),
        i < 0 ==> workspaces_view::last_piece(pieces) is None,
    decreases pieces.len(),
{
    if pieces.len() > 0 && i < pieces.len() - 1 {
        assert(pieces[pieces.len() - 1].len() == 0);
        lemma_last_piece(pieces.drop_last(), i);
        if i >= 0 {
            assert(pieces.drop_last()[i] == pieces[i]);
        }
    }
}

/// A workspace's line counts its repositories, and shows the one there is.
pub proof fn law_workspaces_count_their_repositories(
    ws: &WorkspaceDto,
    r: String,
    page: &WorkspacesPage,
    found: Option<String>,
    n: u64,
    count: String,
)
    requires
        call_ensures(workspace_summary, (ws,), r),
        call_ensures(WorkspacesPage::found_label, (page,), found),
        call_ensures(text::decimal, (n,), count),
    ensures
        ws.repos@.len() == 0 ==> r@ == "no repos"@,
        ws.repos@.len() == 1 ==> r@ == ws.repos@[0].path@ + " · 1 repo"@,
        ws.repos@.len() > 1 && ws.repos@.len() == n ==> r@ == count@ + " repos"@,
        found is None <==> page@.found.len() == 0,
        found is Some && page@.found.len() == n ==> found->0@ == count@ + " repositories found"@,
{
}

/// A file is one of the store's where a name and a dot stand before `json`.
pub proof fn law_run_files_end_in_json(name: &str, r: bool, at: int)
    requires
        call_ensures(is_run_file, (name,), r),
        -1 <= at < name@.len(),
        at >= 0 ==> name@[at] == '.',
        forall|i: int| at < i < name@.len() ==> name@[i] != '.',
    ensures
        r <==> at > 0 && name@.skip(at + 1) == "json"@,
{
    reveal_strlit("..");
    reveal_strlit("json");
    lemma_last_dot(name@, at);
    if name@ == ".."@ {
        assert(name@.skip(at + 1).len() == 1 - at);
    }
}

proof fn lemma_last_dot(name: Seq<char>, at: int)
    requires
        -1 <= at < name.len(),
        at >= 0 ==> name[at] == '.',
        forall|i: int| at < i < name.len() ==> name[i] != '.',
    ensures
        run_store::last_dot(name) == at,
    decreases name.len(),
{
    if name.len() > 0 && at < name.len() - 1 {
        assert(name[name.len() - 1] != '.');
        lemma_last_dot(name.drop_last(), at);
    }
}

} // verus!
