use vstd::prelude::*;

use crate::constants::CLOSURE_LIB_BYTES;
use crate::constants::CLOSURE_LIB_URL;
use crate::constants::CORE_NAME;
use crate::constants::CORE_URL;
use crate::constants::PROTOBUF_JS_BYTES;
use crate::constants::PROTOBUF_JS_URL;
use crate::constants::RTS_NAME;
use crate::constants::RTS_URL;
use crate::error::Error;
use crate::util::clone_segments;
use crate::util::raw_split;
use crate::util::resolved_path;
use crate::util::str_eq;
use crate::util::unzip;
use crate::util::unzip_spec;
use crate::util::zip_read;
use crate::util::ActModel;
use crate::util::CdManager;
use crate::util::FsAction;
use crate::util::NameOrPath;
use crate::util::UnpackPlan;

verus! {

/// One fetch-and-unpack unit of work for a single auxiliary resource: the
/// source URL, the destination directory, and whether the archive's shared
/// top-level directory is stripped on unpacking.
pub struct FetchJob {
    pub url: String,
    pub dest: Vec<String>,
    pub flatten: bool,
}

/// The pre-flight plan of a fetch: what to clean, where to clone from and
/// to, and whether the bundled auxiliary fetches follow.
pub struct GetPlan {
    pub clean_first: bool,
    pub target: Vec<String>,
    pub url: String,
    pub branch: String,
    pub fetch_core_after: bool,
}

/// A single resource to fetch: a repository URL and branch, the
/// destination directory, whether an existing destination is overwritten,
/// and whether this is the core resource that brings its auxiliary
/// libraries with it.
#[derive(Debug)]
pub struct Get {
    pub url: String,
    pub branch: String,
    pub path: Vec<String>,
    pub force: bool,
    pub is_core: bool,
}

impl Get {
    /// The core repository, saved at the explicit path when one is given,
    /// else under the workspace's `git` directory by its default name.
    pub fn new_core(
        save_path: Option<&str>,
        branch: &str,
        force: bool,
        scaii_dir: &Vec<String>,
    ) -> (r: Self)
        ensures
            save_path matches Some(p) ==> r.path.deep_view() == raw_split(p@),
            save_path is None ==> r.path.deep_view() == scaii_dir.deep_view() + seq![
                "git"@,
                CORE_NAME@,
            ],
            r.url@ == CORE_URL@,
            r.branch@ == branch@,
            r.force == force,
            r.is_core == true,
    {
        let np = NameOrPath::from_path_or_default(save_path, CORE_NAME);
        Get {
            path: np.to_path_buf(scaii_dir),
            url: CORE_URL.to_owned(),
            branch: branch.to_owned(),
            force,
            is_core: true,
        }
    }

    /// The real-time-strategy testbed repository, placed like the core.
    pub fn new_rts(
        save_path: Option<&str>,
        branch: &str,
        force: bool,
        scaii_dir: &Vec<String>,
    ) -> (r: Self)
        ensures
            save_path matches Some(p) ==> r.path.deep_view() == raw_split(p@),
            save_path is None ==> r.path.deep_view() == scaii_dir.deep_view() + seq![
                "git"@,
                RTS_NAME@,
            ],
            r.url@ == RTS_URL@,
            r.branch@ == branch@,
            r.force == force,
            r.is_core == false,
    {
        let np = NameOrPath::from_path_or_default(save_path, RTS_NAME);
        Get {
            path: np.to_path_buf(scaii_dir),
            url: RTS_URL.to_owned(),
            branch: branch.to_owned(),
            force,
            is_core: false,
        }
    }

    /// A user-chosen backend repository. The two bundled resource names are
    /// reserved and rejected with [`Error::ReservedName`].
    pub fn new_backend(
        name_path: NameOrPath,
        branch: &str,
        force: bool,
        url: &str,
        scaii_dir: &Vec<String>,
    ) -> (r: Result<Self, Error>)
        ensures
            name_path matches NameOrPath::Name(n) ==> ((n@ == CORE_NAME@ || n@ == RTS_NAME@)
                <==> r is Err),
            name_path is SavePath ==> r is Ok,
            r matches Err(e) ==> e matches Error::ReservedName,
            r matches Ok(g) ==> (g.path.deep_view() == resolved_path(
                name_path,
                scaii_dir.deep_view(),
            ) && g.url@ == url@ && g.branch@ == branch@ && g.force == force && g.is_core == false),
    {
        match &name_path {
            NameOrPath::Name(n) => {
                if str_eq(n.as_str(), CORE_NAME) || str_eq(n.as_str(), RTS_NAME) {
                    return Err(Error::ReservedName);
                }
            },
            NameOrPath::SavePath(_) => {},
        }
        Ok(
            Get {
                path: name_path.to_path_buf(scaii_dir),
                url: url.to_owned(),
                branch: branch.to_owned(),
                force,
                is_core: false,
            },
        )
    }

    /// The pre-flight decision of a fetch, taken before any network
    /// activity. When the destination exists and overwriting is not forced,
    /// the whole operation fails with [`Error::DestinationExists`];
    /// otherwise the plan says whether to clean first, where to clone, and
    /// whether the bundled auxiliary fetches follow.
    pub fn get(self, dest_exists: bool) -> (r: Result<GetPlan, Error>)
        ensures
            (dest_exists && !self.force) <==> r is Err,
            r matches Err(e) ==> e matches Error::DestinationExists,
            r matches Ok(p) ==> (p.clean_first == (dest_exists && self.force) && p.target
                == self.path && p.url == self.url && p.branch == self.branch
                && p.fetch_core_after == self.is_core),
    {
        if dest_exists && !self.force {
            return Err(Error::DestinationExists);
        }
        Ok(
            GetPlan {
                clean_first: dest_exists && self.force,
                target: self.path,
                url: self.url,
                branch: self.branch,
                fetch_core_after: self.is_core,
            },
        )
    }

    /// The two bundled auxiliary fetches of the core resource, both rooted
    /// in its visualization directory: the UI-toolkit archive, unpacked
    /// flattened into its own subdirectory, and the serialization-runtime
    /// archive, unpacked as laid out. Fails with
    /// [`Error::MissingVisualization`] when the cloned core lacks that
    /// directory (`viz_exists` reports what the caller found on disk).
    pub fn get_core_resources(&self, viz_exists: bool) -> (r: Result<Vec<FetchJob>, Error>)
        ensures
            viz_exists <==> r is Ok,
            r matches Err(e) ==> e matches Error::MissingVisualization,
            r matches Ok(jobs) ==> (jobs@.len() == 2 && jobs@[0].url@ == CLOSURE_LIB_URL@
                && jobs@[0].dest.deep_view() == self.path.deep_view() + seq!["viz"@, "js"@]
                && jobs@[0].flatten == true && jobs@[1].url@ == PROTOBUF_JS_URL@
                && jobs@[1].dest.deep_view() == self.path.deep_view() + seq!["viz"@, "js"@]
                && jobs@[1].flatten == false),
    {
        if !viz_exists {
            return Err(Error::MissingVisualization);
        }
        let mut viz = clone_segments(&self.path);
        viz.push("viz".to_owned());
        viz.push("js".to_owned());
        proof {
            assert(viz.deep_view() =~= self.path.deep_view() + seq!["viz"@, "js"@]);
        }
        let viz2 = clone_segments(&viz);
        let closure_job = FetchJob { url: CLOSURE_LIB_URL.to_owned(), dest: viz, flatten: true };
        let protobuf_job = FetchJob { url: PROTOBUF_JS_URL.to_owned(), dest: viz2, flatten: false };
        let mut jobs: Vec<FetchJob> = Vec::new();
        jobs.push(closure_job);
        jobs.push(protobuf_job);
        Ok(jobs)
    }
}

/// A buffer sized for the larger of the two auxiliary archives, so one
/// allocation serves both downloads.
pub fn buffer_capacity_hint() -> (r: usize)
    ensures
        r >= CLOSURE_LIB_BYTES,
        r >= PROTOBUF_JS_BYTES,
        r == CLOSURE_LIB_BYTES || r == PROTOBUF_JS_BYTES,
{
    if CLOSURE_LIB_BYTES > PROTOBUF_JS_BYTES {
        CLOSURE_LIB_BYTES
    } else {
        PROTOBUF_JS_BYTES
    }
}

/// The unpack plan for the UI-toolkit archive: its contents land,
/// flattened, in the `closure_library` subdirectory of the live path,
/// which the call leaves as it found it.
pub fn get_closure_lib(path: &mut CdManager, buf: &[u8]) -> (r: Result<UnpackPlan, Error>)
    requires
        old(path).wf(),
    ensures
        final(path)@ == old(path)@,
        final(path).wf(),
        r matches Ok(p) ==> (unzip_spec(
            buf@,
            old(path)@.segments + seq!["closure_library"@],
            true,
        ) == Ok::<Seq<ActModel>, Error>(p.actions.deep_view()) && (zip_read(buf@) matches
            Some(es) && p.entry_count == es.len())),
        r matches Err(e) ==> unzip_spec(buf@, old(path)@.segments + seq!["closure_library"@], true)
            == Err::<Seq<ActModel>, Error>(e),
{
    let ghost m0 = path@;
    path.layer();
    let mut seg: Vec<String> = Vec::new();
    seg.push("closure_library".to_owned());
    path.push_parts(&seg);
    proof {
        assert(seg.deep_view() =~= seq!["closure_library"@]);
        assert(path@.segments =~= m0.segments + seq!["closure_library"@]);
    }
    let r = unzip(buf, path, true);
    let closed = path.end_layer();
    proof {
        assert(closed is Ok);
        assert(path@.segments =~= m0.segments);
        assert(path@.frames =~= m0.frames);
        assert(path@ =~= m0);
    }
    r
}

/// The unpack-and-relocate plan for the serialization-runtime archive: the
/// archive is unpacked as laid out at the live path, its `js` subtree is
/// renamed to `protobuf_js`, and the emptied staging directory is removed.
/// The live path is left as it was found.
pub fn get_protobuf_js(path: &mut CdManager, buf: &[u8]) -> (r: Result<UnpackPlan, Error>)
    requires
        old(path).wf(),
    ensures
        final(path)@ == old(path)@,
        final(path).wf(),
        r matches Ok(p) ==> (unzip_spec(buf@, old(path)@.segments, false) matches Ok(acts)
            && p.actions.deep_view() == acts + seq![
            ActModel::Rename {
                from: old(path)@.segments + seq!["protobuf-3.5.1"@, "js"@],
                to: old(path)@.segments + seq!["protobuf_js"@],
            },
            ActModel::RemoveAll { path: old(path)@.segments + seq!["protobuf-3.5.1"@] },
        ] && (zip_read(buf@) matches Some(es) && p.entry_count == es.len())),
        r matches Err(e) ==> unzip_spec(buf@, old(path)@.segments, false) == Err::<
            Seq<ActModel>,
            Error,
        >(e),
{
    let ghost m0 = path@;
    let mut plan = match unzip(buf, path, false) {
        Ok(p) => p,
        Err(e) => {
            return Err(e);
        },
    };
    let ghost unpack_acts = plan.actions.deep_view();
    let base = path.clone_inner();
    let mut curr_dir = clone_segments(&base);
    curr_dir.push("protobuf_js".to_owned());
    let mut staging = clone_segments(&base);
    staging.push("protobuf-3.5.1".to_owned());
    let mut from = clone_segments(&staging);
    from.push("js".to_owned());
    proof {
        assert(curr_dir.deep_view() =~= m0.segments + seq!["protobuf_js"@]);
        assert(staging.deep_view() =~= m0.segments + seq!["protobuf-3.5.1"@]);
        assert(from.deep_view() =~= staging.deep_view() + seq!["js"@]);
        assert(from.deep_view() =~= m0.segments + seq!["protobuf-3.5.1"@, "js"@]);
    }
    plan.actions.push(FsAction::Rename { from, to: curr_dir });
    plan.actions.push(FsAction::RemoveAll { path: staging });
    proof {
        assert(plan.actions.deep_view() =~= unpack_acts + seq![
            ActModel::Rename {
                from: m0.segments + seq!["protobuf-3.5.1"@, "js"@],
                to: m0.segments + seq!["protobuf_js"@],
            },
            ActModel::RemoveAll { path: m0.segments + seq!["protobuf-3.5.1"@] },
        ]);
    }
    Ok(plan)
}

} // verus!

