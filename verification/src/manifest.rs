use vstd::prelude::*;
use crate::json::{expect_lit, parse_string, parse_string_list, strip_ws, strip_ws_x};
use crate::text::str_to_chars;
use crate::Error;

verus! {

/// The top-level repository manifest. It is defined for interface
/// completeness; the build pipeline never consults it.
pub struct RepositoryManifest {
    pub name: String,
    pub url: String,
    pub priority: i32,
}

/// Descriptive metadata shared by a package's manifest and its index entry.
pub struct PackageBase {
    pub description: String,
    pub license: String,
    pub authors: Vec<String>,
    pub maintainers: Vec<String>,
}

/// Mathematical value of a [`PackageBase`].
#[verifier::ext_equal]
pub struct BaseView {
    pub description: Seq<char>,
    pub license: Seq<char>,
    pub authors: Seq<Seq<char>>,
    pub maintainers: Seq<Seq<char>>,
}

impl View for PackageBase {
    type V = BaseView;

    open spec fn view(&self) -> BaseView {
        BaseView {
            description: self.description@,
            license: self.license@,
            authors: self.authors.deep_view(),
            maintainers: self.maintainers.deep_view(),
        }
    }
}

/// A package's own manifest: shared metadata plus a version string (a free
/// form map key, no ordering assumed) and a dependency list copied verbatim.
pub struct PackageManifest {
    pub base: PackageBase,
    pub version: String,
    pub dependencies: Vec<String>,
}

/// Mathematical value of a [`PackageManifest`].
#[verifier::ext_equal]
pub struct ManifestView {
    pub base: BaseView,
    pub version: Seq<char>,
    pub dependencies: Seq<Seq<char>>,
}

impl View for PackageManifest {
    type V = ManifestView;

    open spec fn view(&self) -> ManifestView {
        ManifestView {
            base: self.base@,
            version: self.version@,
            dependencies: self.dependencies.deep_view(),
        }
    }
}

/// Whether the SPDX parser accepts a text as a license expression. The
/// grammar is fixed, so this depends on the text alone.
pub uninterp spec fn spdx_valid(s: Seq<char>) -> bool;

/// Relies on spdx::Expression::parse: a pure parser of SPDX license
/// expressions; acceptance depends on the input text alone. The error case
/// carries the parser's own diagnostic.
#[verifier::external_body]
fn spdx_parse(license: &str) -> (r: Result<(), String>)
    ensures
        r is Ok <==> spdx_valid(license@),
{
    match spdx::Expression::parse(license) {
        Ok(_) => Ok(()),
        Err(e) => Err(e.to_string()),
    }
}

impl PackageManifest {
    /// A manifest is acceptable exactly when it names at least one author, at
    /// least one maintainer, and a license that is a valid SPDX expression.
    pub fn verify(&self) -> (r: Result<(), Error>)
        ensures
            r is Ok <==> (self@.base.authors.len() > 0 && self@.base.maintainers.len() > 0
                && spdx_valid(self@.base.license)),
            self@.base.authors.len() == 0 ==> r == Err::<(), Error>(Error::MissingAuthors),
            self@.base.authors.len() > 0 && self@.base.maintainers.len() == 0 ==> r == Err::<
                (),
                Error,
            >(Error::MissingMaintainers),
            self@.base.authors.len() > 0 && self@.base.maintainers.len() > 0 && !spdx_valid(
                self@.base.license,
            ) ==> (r matches Err(e) && e is InvalidLicenseId),
    {
        if self.base.authors.len() == 0 {
            return Err(Error::MissingAuthors);
        }
        if self.base.maintainers.len() == 0 {
            return Err(Error::MissingMaintainers);
        }
        match spdx_parse(self.base.license.as_str()) {
            Ok(_) => Ok(()),
            Err(diagnostic) => Err(Error::InvalidLicenseId(diagnostic)),
        }
    }
}

/// Parse a manifest document: whitespace outside string members is
/// insignificant; the members stand in their canonical order.
pub open spec fn parse_manifest_json(s: Seq<char>) -> Option<ManifestView> {
    let t = strip_ws(s);
    if t.len() == 0 || t[0] != '{' {
        None
    } else {
        match crate::codec::parse_manifest_fields(t.skip(1)) {
            None => None,
            Some((m, n)) => {
                let r = t.skip(1 + n);
                if r.len() == 1 && r[0] == '}' {
                    Some(m)
                } else {
                    None
                }
            },
        }
    }
}

/// Parse a manifest document into a manifest value; a text that is not such
/// a document is malformed.
#[verifier::rlimit(100)]
pub fn parse_package_manifest(s: &str) -> (r: Result<PackageManifest, Error>)
    ensures
        r matches Ok(m) ==> parse_manifest_json(s@) == Some(m@),
        r is Err ==> parse_manifest_json(s@) is None,
        r matches Err(e) ==> e is ParseManifest,
{
    let raw = str_to_chars(s);
    let v = strip_ws_x(&raw);
    if v.len() == 0 {
        return Err(Error::ParseManifest);
    }
    if v[0] != '{' {
        return Err(Error::ParseManifest);
    }
    proof {
        assert(v@[0] == '{');
        assert(v@.skip(0) =~= v@);
    }
    let (base, a8) = match crate::codec::parse_base_x(&v, 1) {
        None => {
            return Err(Error::ParseManifest);
        },
        Some(t) => t,
    };
    proof {
        assert(v@.skip(1).skip(a8 - 1 as int) =~= v@.skip(a8 as int));
    }
    let a9 = match expect_lit(&v, a8, ",\"version\":") {
        None => {
            return Err(Error::ParseManifest);
        },
        Some(a) => a,
    };
    proof {
        assert(v@.skip(a8 as int).skip(",\"version\":"@.len() as int) =~= v@.skip(a9 as int));
    }
    let (version, a10) = match parse_string(&v, a9) {
        None => {
            return Err(Error::ParseManifest);
        },
        Some(t) => t,
    };
    proof {
        assert(v@.skip(a8 as int).skip((",\"version\":"@.len() + a10 - a9) as int) =~= v@.skip(
            a10 as int,
        ));
    }
    let a11 = match expect_lit(&v, a10, ",\"dependencies\":") {
        None => {
            return Err(Error::ParseManifest);
        },
        Some(a) => a,
    };
    proof {
        assert(v@.skip(a10 as int).skip(",\"dependencies\":"@.len() as int) =~= v@.skip(
            a11 as int,
        ));
    }
    let (dependencies, a12) = match parse_string_list(&v, a11) {
        None => {
            return Err(Error::ParseManifest);
        },
        Some(t) => t,
    };
    let ghost mv = ManifestView {
        base: base@,
        version: version@,
        dependencies: dependencies.deep_view(),
    };
    proof {
        assert(crate::codec::parse_manifest_fields(v@.skip(1)) == Some((mv, a12 - 1 as int)));
        assert(v@.skip(1 + (a12 - 1) as int) =~= v@.skip(a12 as int));
    }
    if !(a12 == v.len() - 1) {
        proof {
            assert(v@.skip(a12 as int).len() != 1);
        }
        return Err(Error::ParseManifest);
    }
    if v[a12] != '}' {
        proof {
            assert(v@.skip(a12 as int)[0] == v@[a12 as int]);
        }
        return Err(Error::ParseManifest);
    }
    proof {
        assert(v@.skip(a12 as int).len() == 1 && v@.skip(a12 as int)[0] == '}');
    }
    let m = PackageManifest { base, version, dependencies };
    proof {
        assert(m@ =~= mv);
    }
    Ok(m)
}

} // verus!
