use vstd::prelude::*;
use crate::digest::{content_digest, sha256_hex_of};
use crate::manifest::{ManifestView, PackageManifest};

verus! {

/// One collected source file: its final text and that text's digest.
pub struct File {
    pub content: String,
    pub digest: String,
}

/// Mathematical value of a [`File`].
#[verifier::ext_equal]
pub struct FileView {
    pub content: Seq<char>,
    pub digest: Seq<char>,
}

impl View for File {
    type V = FileView;

    open spec fn view(&self) -> FileView {
        FileView { content: self.content@, digest: self.digest@ }
    }
}

impl File {
    /// Store a final text together with the digest of that text — the text as
    /// it stands, after any transform has already been applied.
    pub fn new(content: String) -> (r: File)
        ensures
            r@.content == content@,
            r@.digest == sha256_hex_of(content@),
    {
        let digest = content_digest(content.as_str());
        File { content, digest }
    }
}

/// The serialized unit: a package's manifest plus its mapping of relative
/// source path to collected file.
pub struct Package {
    pub manifest: PackageManifest,
    pub files: Vec<(String, File)>,
}

/// Mathematical value of a [`Package`].
#[verifier::ext_equal]
pub struct PackageView {
    pub manifest: ManifestView,
    pub files: Seq<(Seq<char>, FileView)>,
}

impl View for Package {
    type V = PackageView;

    open spec fn view(&self) -> PackageView {
        PackageView {
            manifest: self.manifest@,
            files: self.files@.map_values(|e: (String, File)| (e.0@, e.1@)),
        }
    }
}

/// The file mapping that a list of (relative path, final text) sources
/// yields: each text is stored with its own digest.
pub open spec fn files_of(sources: Seq<(Seq<char>, Seq<char>)>) -> Seq<(Seq<char>, FileView)> {
    sources.map_values(
        |e: (Seq<char>, Seq<char>)|
            (e.0, FileView { content: e.1, digest: sha256_hex_of(e.1) }),
    )
}

impl Package {
    /// Collect sources into a package. Every file's digest is the digest of
    /// the text handed in here, never of anything earlier.
    pub fn from_sources(manifest: PackageManifest, sources: Vec<(String, String)>) -> (r: Package)
        ensures
            r@.manifest == manifest@,
            r@.files == files_of(sources.deep_view()),
    {
        let ghost dv = sources.deep_view();
        let mut files: Vec<(String, File)> = Vec::new();
        let mut i: usize = 0;
        while i < sources.len()
            invariant
                dv == sources.deep_view(),
                dv.len() == sources@.len(),
                i <= sources@.len(),
                files@.len() == i,
                forall|k: int|
                    0 <= k < i ==> (#[trigger] files@[k]).0@ == dv[k].0 && files@[k].1@.content
                        == dv[k].1 && files@[k].1@.digest == sha256_hex_of(dv[k].1),
            decreases sources@.len() - i,
        {
            let path = sources[i].0.clone();
            let content = sources[i].1.clone();
            let ghost cv = content@;
            proof {
                assert(sources@[i as int].0@ == path@ && sources@[i as int].1@ == cv);
                assert(dv[i as int] == (path@, cv));
            }
            let f = File::new(content);
            files.push((path, f));
            i += 1;
        }
        proof {
            assert(files@.map_values(|e: (String, File)| (e.0@, e.1@)) =~~= files_of(dv));
        }
        Package { manifest, files }
    }
}

} // verus!
