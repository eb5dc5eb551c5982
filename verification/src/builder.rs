use vstd::prelude::*;
use vstd::string::StringExecFns;
use crate::codec::{artifact_text_of, decode_of, encode_package};
use crate::digest::{content_digest, sha256_hex_of};
use crate::index::{merged_package, upsert, Index, Version, VersionView};
use crate::manifest::{parse_manifest_json, parse_package_manifest, spdx_valid, PackageBase};
use crate::package::{files_of, Package, PackageView};
use crate::Error;

verus! {

/// What one successful build hands back: the artifact's file name and the
/// artifact text to be written under it.
pub struct BuildOutput {
    pub file_name: String,
    pub artifact: String,
}

/// The artifact's file name: the package's directory name, its version, and
/// the archive extension.
pub open spec fn artifact_file_name(name: Seq<char>, version: Seq<char>) -> Seq<char> {
    name + "."@ + version + ".ccp"@
}

fn make_file_name(name: &String, version: &String) -> (r: String)
    ensures
        r@ == artifact_file_name(name@, version@),
{
    let mut f = name.clone();
    f.append(".");
    f.append(version.as_str());
    f.append(".ccp");
    f
}

fn clone_strings(v: &Vec<String>) -> (r: Vec<String>)
    ensures
        r.deep_view() == v.deep_view(),
{
    let mut r: Vec<String> = Vec::new();
    let mut i: usize = 0;
    while i < v.len()
        invariant
            i <= v@.len(),
            r@.len() == i,
            forall|k: int| 0 <= k < i ==> (#[trigger] r@[k])@ == v@[k]@,
        decreases v@.len() - i,
    {
        r.push(v[i].clone());
        i += 1;
    }
    proof {
        assert(r.deep_view() =~= v.deep_view());
    }
    r
}

fn clone_base(b: &PackageBase) -> (r: PackageBase)
    ensures
        r@ == b@,
{
    let r = PackageBase {
        description: b.description.clone(),
        license: b.license.clone(),
        authors: clone_strings(&b.authors),
        maintainers: clone_strings(&b.maintainers),
    };
    proof {
        assert(r@ =~= b@);
    }
    r
}

/// Build one package from its manifest text and its collected sources
/// (final texts, any transform already applied), and record the result in
/// the index. The work is: parse the manifest, check it, digest every file,
/// encode the artifact, digest the artifact, and merge the version record.
/// On any failure the index is left exactly as it was.
pub fn build_one(
    index: &mut Index,
    name: &String,
    manifest_text: &str,
    sources: Vec<(String, String)>,
) -> (r: Result<BuildOutput, Error>)
    ensures
        r is Ok <==> (parse_manifest_json(manifest_text@) matches Some(m) && m.base.authors.len()
            > 0 && m.base.maintainers.len() > 0 && spdx_valid(m.base.license)),
        r is Err ==> *final(index) == *old(index),
        parse_manifest_json(manifest_text@) is None ==> (r matches Err(e) && e is ParseManifest),
        (parse_manifest_json(manifest_text@) matches Some(m) && m.base.authors.len() == 0) ==> (
        r matches Err(e) && e is MissingAuthors),
        (parse_manifest_json(manifest_text@) matches Some(m) && m.base.authors.len() > 0
            && m.base.maintainers.len() == 0) ==> (r matches Err(e) && e is MissingMaintainers),
        (parse_manifest_json(manifest_text@) matches Some(m) && m.base.authors.len() > 0
            && m.base.maintainers.len() > 0 && !spdx_valid(m.base.license)) ==> (r matches Err(e)
            && e is InvalidLicenseId),
        r matches Ok(out) ==> (parse_manifest_json(manifest_text@) matches Some(m) && {
            let pkg = PackageView { manifest: m, files: files_of(sources.deep_view()) };
            &&& out.artifact@ == artifact_text_of(pkg)
            &&& decode_of(out.artifact@) == Some(pkg)
            &&& out.file_name@ == artifact_file_name(name@, m.version)
            &&& final(index)@ == upsert(
                old(index)@,
                name@,
                merged_package(
                    old(index)@,
                    name@,
                    m.base,
                    m.version,
                    VersionView {
                        digest: sha256_hex_of(out.artifact@),
                        dependencies: m.dependencies,
                    },
                ),
            )
        }),
{
    let manifest = match parse_package_manifest(manifest_text) {
        Err(e) => {
            return Err(e);
        },
        Ok(m) => m,
    };
    match manifest.verify() {
        Err(e) => {
            return Err(e);
        },
        Ok(_) => {},
    }
    let base = clone_base(&manifest.base);
    let version = manifest.version.clone();
    let file_name = make_file_name(name, &manifest.version);
    let deps = clone_strings(&manifest.dependencies);
    let ghost mv = manifest@;
    let pkg = Package::from_sources(manifest, sources);
    let artifact = encode_package(&pkg);
    let digest = content_digest(artifact.as_str());
    let ver = Version { digest, dependencies: deps };
    proof {
        assert(pkg@ =~= PackageView { manifest: mv, files: files_of(sources.deep_view()) });
        assert(ver@ =~= VersionView {
            digest: sha256_hex_of(artifact@),
            dependencies: mv.dependencies,
        });
    }
    index.merge_one(name, base, &version, ver);
    Ok(BuildOutput { file_name, artifact })
}

} // verus!
