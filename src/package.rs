//! The local package model: a package's descriptor record, its file
//! manifest, and the checks of the manifest against the filesystem.
use std::io::Read;

use vstd::prelude::*;

use crate::desc::{
    chars_eq, chars_of, is_literal, FieldModel, ScalarKindModel, ShapeModel, decode_spec, fields_view, from_str, scalars_view, strings_view, Field,
    Scalar, ScalarKind, ScalarModel, Shape, Value, ValueModel,
};
use crate::error::{Error, KindModel};
use crate::desc::{lemma_unknown_section_ignored, lines_of, sections_of, SectionModel};
use crate::manifest::{check_manifest, manifest_safe};

verus! {

/// The classification of a file.
#[derive(Debug, Clone, Copy, PartialEq, Eq, Hash, PartialOrd, Ord, Structural)]
pub enum FileType {
    File,
    Directory,
    SymbolicLink,
    Other,
}

impl FileType {
    /// A human-readable name of the classification.
    pub fn to_string(&self) -> (r: String)
        ensures
            r@ == self.spec_name(),
    {
        match self {
            FileType::File => "file".to_owned(),
            FileType::Directory => "directory".to_owned(),
            FileType::SymbolicLink => "symbolic link".to_owned(),
            FileType::Other => "other".to_owned(),
        }
    }

    pub open spec fn spec_name(&self) -> Seq<char> {
        match self {
            FileType::File => "file"@,
            FileType::Directory => "directory"@,
            FileType::SymbolicLink => "symbolic link"@,
            FileType::Other => "other"@,
        }
    }
}

/// A way in which a package can be validated.
#[derive(Debug, Clone, Copy, PartialEq, Eq, Hash, Structural)]
pub enum Validation {
    /// No validation (the `none` tag).
    Unvalidated,
    Md5,
    Sha256,
    Pgp,
}

/// Why a package was installed.
#[derive(Debug, Clone, Copy, PartialEq, Eq, Hash, Structural)]
pub enum Reason {
    /// The package was installed explicitly.
    Explicit,
    /// The package was installed because another package required it.
    Depend,
}

/// A discrepancy between a package's manifest and the filesystem.
#[derive(Debug, Clone, PartialEq, Eq, Hash, PartialOrd, Ord)]
pub enum ValidationError {
    /// A file of the package is not present on disk.
    FileNotFound(String),
    /// A file has the wrong classification.
    WrongType { expected: FileType, actual: FileType },
    /// A file has the wrong size.
    WrongSize { expected: u64, actual: u64 },
}

pub enum FindingModel {
    FileNotFound(Seq<char>),
    WrongType { expected: FileType, actual: FileType },
    WrongSize { expected: u64, actual: u64 },
}

impl View for ValidationError {
    type V = FindingModel;

    open spec fn view(&self) -> FindingModel {
        match self {
            ValidationError::FileNotFound(p) => FindingModel::FileNotFound(p@),
            ValidationError::WrongType { expected, actual } => FindingModel::WrongType {
                expected: *expected,
                actual: *actual,
            },
            ValidationError::WrongSize { expected, actual } => FindingModel::WrongSize {
                expected: *expected,
                actual: *actual,
            },
        }
    }
}

pub open spec fn findings_view(v: Seq<ValidationError>) -> Seq<FindingModel> {
    v.map_values(|f: ValidationError| f@)
}

impl ValidationError {
    /// A missing file at `path`.
    pub fn file_not_found(path: String) -> (r: ValidationError)
        ensures
            r@ == FindingModel::FileNotFound(path@),
    {
        ValidationError::FileNotFound(path)
    }

    /// A file classified `actual` where the manifest says `expected`.
    pub fn wrong_type(expected: FileType, actual: FileType) -> (r: ValidationError)
        ensures
            r@ == (FindingModel::WrongType { expected, actual }),
    {
        ValidationError::WrongType { expected, actual }
    }

    /// A file of `actual` bytes where the manifest says `expected`.
    pub fn wrong_size(expected: u64, actual: u64) -> (r: ValidationError)
        ensures
            r@ == (FindingModel::WrongSize { expected, actual }),
    {
        ValidationError::WrongSize { expected, actual }
    }
}

/// One entry of a package's file manifest.
#[derive(Debug, Clone)]
pub struct ManifestEntry {
    pub path: String,
    pub file_type: Option<FileType>,
    pub size: Option<u64>,
}

/// What the filesystem holds at an entry's path.
#[derive(Debug, Clone, Copy, PartialEq, Eq, Structural)]
pub enum FileStat {
    /// Nothing is there.
    NotFound,
    /// A file of the given classification and length is there.
    Found { file_type: FileType, len: u64 },
}

/// The model of a package descriptor.
pub struct DescModel {
    pub name: Seq<char>,
    pub version: Seq<char>,
    pub base: Option<Seq<char>>,
    pub description: Seq<char>,
    pub groups: Seq<Seq<char>>,
    pub url: Seq<char>,
    pub license: Option<Seq<char>>,
    pub arch: Seq<char>,
    pub packager: Seq<char>,
    pub reason: Option<Reason>,
    pub validation: Seq<Validation>,
    pub size: u64,
    pub replaces: Seq<Seq<char>>,
    pub depends: Seq<Seq<char>>,
    pub optional_depends: Seq<Seq<char>>,
    pub conflicts: Seq<Seq<char>>,
    pub provides: Seq<Seq<char>>,
}

/// The metadata record of an installed package.
#[derive(Debug)]
pub struct PackageDesc {
    pub name: String,
    pub version: String,
    pub base: Option<String>,
    pub description: String,
    pub groups: Vec<String>,
    pub url: String,
    pub license: Option<String>,
    pub arch: String,
    pub packager: String,
    pub reason: Option<Reason>,
    pub validation: Vec<Validation>,
    pub size: u64,
    pub replaces: Vec<String>,
    pub depends: Vec<String>,
    pub optional_depends: Vec<String>,
    pub conflicts: Vec<String>,
    pub provides: Vec<String>,
}

pub open spec fn opt_view(o: Option<String>) -> Option<Seq<char>> {
    match o {
        Some(s) => Some(s@),
        None => None,
    }
}

impl View for PackageDesc {
    type V = DescModel;

    open spec fn view(&self) -> DescModel {
        DescModel {
            name: self.name@,
            version: self.version@,
            base: opt_view(self.base),
            description: self.description@,
            groups: strings_view(self.groups@),
            url: self.url@,
            license: opt_view(self.license),
            arch: self.arch@,
            packager: self.packager@,
            reason: self.reason,
            validation: self.validation@,
            size: self.size,
            replaces: strings_view(self.replaces@),
            depends: strings_view(self.depends@),
            optional_depends: strings_view(self.optional_depends@),
            conflicts: strings_view(self.conflicts@),
            provides: strings_view(self.provides@),
        }
    }
}

/// The tags of `Reason`, in the order of its variants.
pub open spec fn reason_tags() -> Seq<Seq<char>> {
    seq!["0"@, "1"@]
}

/// The tags of `Validation`, in the order of its variants.
pub open spec fn validation_tags() -> Seq<Seq<char>> {
    seq!["none"@, "md5"@, "sha256"@, "pgp"@]
}

pub open spec fn field_model(key: Seq<char>, shape: ShapeModel) -> FieldModel {
    FieldModel { key, shape }
}

/// The schema of a package descriptor, one field per section key.
pub open spec fn desc_schema_model() -> Seq<FieldModel> {
    seq![
        field_model("NAME"@, ShapeModel::One(ScalarKindModel::Str)),
        field_model("VERSION"@, ShapeModel::One(ScalarKindModel::Str)),
        field_model("BASE"@, ShapeModel::Optional(ScalarKindModel::Str)),
        field_model("DESC"@, ShapeModel::One(ScalarKindModel::Str)),
        field_model("GROUPS"@, ShapeModel::ListOrEmpty(ScalarKindModel::Str)),
        field_model("URL"@, ShapeModel::One(ScalarKindModel::Str)),
        field_model("LICENSE"@, ShapeModel::Optional(ScalarKindModel::Str)),
        field_model("ARCH"@, ShapeModel::One(ScalarKindModel::Str)),
        field_model("PACKAGER"@, ShapeModel::One(ScalarKindModel::Str)),
        field_model("REASON"@, ShapeModel::Optional(ScalarKindModel::Variant(reason_tags()))),
        field_model("VALIDATION"@, ShapeModel::ListOrEmpty(ScalarKindModel::Variant(validation_tags()))),
        field_model("SIZE"@, ShapeModel::One(ScalarKindModel::Unsigned)),
        field_model("REPLACES"@, ShapeModel::ListOrEmpty(ScalarKindModel::Str)),
        field_model("DEPENDS"@, ShapeModel::ListOrEmpty(ScalarKindModel::Str)),
        field_model("OPTDEPENDS"@, ShapeModel::ListOrEmpty(ScalarKindModel::Str)),
        field_model("CONFLICTS"@, ShapeModel::ListOrEmpty(ScalarKindModel::Str)),
        field_model("PROVIDES"@, ShapeModel::ListOrEmpty(ScalarKindModel::Str)),
    ]
}

fn str_field(key: &str, shape: Shape) -> (r: Field)
    ensures
        r@ == field_model(key@, shape@),
{
    Field { key: key.to_owned(), shape }
}

fn tags(a: &str, b: &str) -> (r: Vec<String>)
    ensures
        strings_view(r@) == seq![a@, b@],
{
    let mut v: Vec<String> = Vec::new();
    v.push(a.to_owned());
    v.push(b.to_owned());
    assert(strings_view(v@) =~= seq![a@, b@]);
    v
}

fn validation_tag_list() -> (r: Vec<String>)
    ensures
        strings_view(r@) == validation_tags(),
{
    let mut v: Vec<String> = Vec::new();
    v.push("none".to_owned());
    v.push("md5".to_owned());
    v.push("sha256".to_owned());
    v.push("pgp".to_owned());
    assert(strings_view(v@) =~= validation_tags());
    v
}

/// The schema of a package descriptor.
pub fn desc_schema() -> (r: Vec<Field>)
    ensures
        fields_view(r@) == desc_schema_model(),
{
    let mut v: Vec<Field> = Vec::new();
    v.push(str_field("NAME", Shape::One(ScalarKind::Str)));
    v.push(str_field("VERSION", Shape::One(ScalarKind::Str)));
    v.push(str_field("BASE", Shape::Optional(ScalarKind::Str)));
    v.push(str_field("DESC", Shape::One(ScalarKind::Str)));
    v.push(str_field("GROUPS", Shape::ListOrEmpty(ScalarKind::Str)));
    v.push(str_field("URL", Shape::One(ScalarKind::Str)));
    v.push(str_field("LICENSE", Shape::Optional(ScalarKind::Str)));
    v.push(str_field("ARCH", Shape::One(ScalarKind::Str)));
    v.push(str_field("PACKAGER", Shape::One(ScalarKind::Str)));
    v.push(str_field("REASON", Shape::Optional(ScalarKind::Variant(tags("0", "1")))));
    v.push(str_field("VALIDATION", Shape::ListOrEmpty(ScalarKind::Variant(validation_tag_list()))));
    v.push(str_field("SIZE", Shape::One(ScalarKind::Unsigned)));
    v.push(str_field("REPLACES", Shape::ListOrEmpty(ScalarKind::Str)));
    v.push(str_field("DEPENDS", Shape::ListOrEmpty(ScalarKind::Str)));
    v.push(str_field("OPTDEPENDS", Shape::ListOrEmpty(ScalarKind::Str)));
    v.push(str_field("CONFLICTS", Shape::ListOrEmpty(ScalarKind::Str)));
    v.push(str_field("PROVIDES", Shape::ListOrEmpty(ScalarKind::Str)));
    assert(fields_view(v@) =~= desc_schema_model());
    v
}


pub open spec fn str_in(v: ValueModel) -> Seq<char> {
    match v {
        ValueModel::One(ScalarModel::Str(s)) => s,
        _ => seq![],
    }
}

pub open spec fn opt_str_in(v: ValueModel) -> Option<Seq<char>> {
    match v {
        ValueModel::One(ScalarModel::Str(s)) => Some(s),
        _ => None,
    }
}

pub open spec fn scalar_str(x: ScalarModel) -> Seq<char> {
    match x {
        ScalarModel::Str(s) => s,
        _ => seq![],
    }
}

pub open spec fn strs_in(v: ValueModel) -> Seq<Seq<char>> {
    match v {
        ValueModel::List(xs) => xs.map_values(|x: ScalarModel| scalar_str(x)),
        _ => seq![],
    }
}

pub open spec fn u64_in(v: ValueModel) -> u64 {
    match v {
        ValueModel::One(ScalarModel::Unsigned(n)) => n,
        _ => 0,
    }
}

pub open spec fn reason_in(v: ValueModel) -> Option<Reason> {
    match v {
        ValueModel::One(ScalarModel::Variant(i)) => if i == 0 {
            Some(Reason::Explicit)
        } else {
            Some(Reason::Depend)
        },
        _ => None,
    }
}

pub open spec fn validation_at(x: ScalarModel) -> Validation {
    match x {
        ScalarModel::Variant(i) => if i == 0 {
            Validation::Unvalidated
        } else if i == 1 {
            Validation::Md5
        } else if i == 2 {
            Validation::Sha256
        } else {
            Validation::Pgp
        },
        _ => Validation::Pgp,
    }
}

pub open spec fn validations_in(v: ValueModel) -> Seq<Validation> {
    match v {
        ValueModel::List(xs) => xs.map_values(|x: ScalarModel| validation_at(x)),
        _ => seq![],
    }
}

/// The descriptor that the values of `desc_schema_model`, in its order, stand for.
pub open spec fn desc_of_values(vs: Seq<ValueModel>) -> DescModel {
    DescModel {
        name: str_in(vs[0]),
        version: str_in(vs[1]),
        base: opt_str_in(vs[2]),
        description: str_in(vs[3]),
        groups: strs_in(vs[4]),
        url: str_in(vs[5]),
        license: opt_str_in(vs[6]),
        arch: str_in(vs[7]),
        packager: str_in(vs[8]),
        reason: reason_in(vs[9]),
        validation: validations_in(vs[10]),
        size: u64_in(vs[11]),
        replaces: strs_in(vs[12]),
        depends: strs_in(vs[13]),
        optional_depends: strs_in(vs[14]),
        conflicts: strs_in(vs[15]),
        provides: strs_in(vs[16]),
    }
}

pub open spec fn empty_id_msg() -> Seq<char> {
    "empty name or version"@
}

/// A descriptor text decoded into a package descriptor; the name and the
/// version must not be empty.
pub open spec fn desc_result(text: Seq<char>) -> Result<DescModel, KindModel> {
    match decode_spec(text, desc_schema_model()) {
        Err(e) => Err(e),
        Ok(vs) => {
            let d = desc_of_values(vs);
            if d.name.len() == 0 || d.version.len() == 0 {
                Err(KindModel::Custom(empty_id_msg()))
            } else {
                Ok(d)
            }
        },
    }
}

fn take_str(v: &Value) -> (r: String)
    ensures
        r@ == str_in(v@),
{
    match v {
        Value::One(Scalar::Str(s)) => s.clone(),
        _ => String::new(),
    }
}

fn take_opt_str(v: &Value) -> (r: Option<String>)
    ensures
        opt_view(r) == opt_str_in(v@),
{
    match v {
        Value::One(Scalar::Str(s)) => Some(s.clone()),
        _ => None,
    }
}

fn take_strs(v: &Value) -> (r: Vec<String>)
    ensures
        strings_view(r@) == strs_in(v@),
{
    let mut out: Vec<String> = Vec::new();
    match v {
        Value::List(xs) => {
            let mut i: usize = 0;
            while i < xs.len()
                invariant
                    0 <= i <= xs@.len(),
                    v@ == ValueModel::List(scalars_view(xs@)),
                    strings_view(out@) == scalars_view(xs@).subrange(0, i as int).map_values(
                        |x: ScalarModel| scalar_str(x),
                    ),
                decreases xs@.len() - i,
            {
                let ghost old_out = out@;
                let s = match &xs[i] {
                    Scalar::Str(s) => s.clone(),
                    _ => String::new(),
                };
                assert(s@ == scalar_str(xs@[i as int]@));
                out.push(s);
                assert(strings_view(out@) =~= strings_view(old_out).push(s@));
                assert(scalars_view(xs@)[i as int] == xs@[i as int]@);
                assert(strings_view(out@) =~= scalars_view(xs@).subrange(0, i + 1).map_values(
                    |x: ScalarModel| scalar_str(x),
                ));
                i = i + 1;
            }
            assert(scalars_view(xs@).subrange(0, xs@.len() as int) =~= scalars_view(xs@));
        },
        _ => {
            assert(strings_view(out@) =~= Seq::<Seq<char>>::empty());
        },
    }
    out
}

fn take_u64(v: &Value) -> (r: u64)
    ensures
        r == u64_in(v@),
{
    match v {
        Value::One(Scalar::Unsigned(n)) => *n,
        _ => 0,
    }
}

fn take_reason(v: &Value) -> (r: Option<Reason>)
    ensures
        r == reason_in(v@),
{
    match v {
        Value::One(Scalar::Variant(i)) => if *i == 0 {
            Some(Reason::Explicit)
        } else {
            Some(Reason::Depend)
        },
        _ => None,
    }
}

fn validation_of(x: &Scalar) -> (r: Validation)
    ensures
        r == validation_at(x@),
{
    match x {
        Scalar::Variant(0) => Validation::Unvalidated,
        Scalar::Variant(1) => Validation::Md5,
        Scalar::Variant(2) => Validation::Sha256,
        _ => Validation::Pgp,
    }
}

fn take_validations(v: &Value) -> (r: Vec<Validation>)
    ensures
        r@ == validations_in(v@),
{
    let mut out: Vec<Validation> = Vec::new();
    match v {
        Value::List(xs) => {
            let mut i: usize = 0;
            while i < xs.len()
                invariant
                    0 <= i <= xs@.len(),
                    v@ == ValueModel::List(scalars_view(xs@)),
                    out@ == scalars_view(xs@).subrange(0, i as int).map_values(
                        |x: ScalarModel| validation_at(x),
                    ),
                decreases xs@.len() - i,
            {
                out.push(validation_of(&xs[i]));
                assert(scalars_view(xs@)[i as int] == xs@[i as int]@);
                assert(out@ =~= scalars_view(xs@).subrange(0, i + 1).map_values(
                    |x: ScalarModel| validation_at(x),
                ));
                i = i + 1;
            }
            assert(scalars_view(xs@).subrange(0, xs@.len() as int) =~= scalars_view(xs@));
        },
        _ => {
            assert(out@ =~= Seq::<Validation>::empty());
        },
    }
    out
}

impl PackageDesc {
    /// Decodes a package descriptor from its descriptor text. Fails where the
    /// text does not decode against `desc_schema`, or where the name or the
    /// version is empty.
    pub fn decode(text: &str) -> (r: Result<PackageDesc, Error>)
        ensures
            match desc_result(text@) {
                Ok(d) => r matches Ok(p) && p@ == d,
                Err(e) => r matches Err(x) && x.spec_kind() == e,
            },
    {
        let schema = desc_schema();
        let vs = from_str(text, &schema)?;
        proof {
            crate::desc::lemma_record_len(
                desc_schema_model(),
                crate::desc::sections_of(crate::desc::lines_of(text@))->Some_0,
            );
        }
        assert(vs@.len() == 17);
        assert forall|i: int| 0 <= i < 17 implies crate::desc::values_view(vs@)[i] == #[trigger] vs@[i]@ by {}
        let d = PackageDesc {
            name: take_str(&vs[0]),
            version: take_str(&vs[1]),
            base: take_opt_str(&vs[2]),
            description: take_str(&vs[3]),
            groups: take_strs(&vs[4]),
            url: take_str(&vs[5]),
            license: take_opt_str(&vs[6]),
            arch: take_str(&vs[7]),
            packager: take_str(&vs[8]),
            reason: take_reason(&vs[9]),
            validation: take_validations(&vs[10]),
            size: take_u64(&vs[11]),
            replaces: take_strs(&vs[12]),
            depends: take_strs(&vs[13]),
            optional_depends: take_strs(&vs[14]),
            conflicts: take_strs(&vs[15]),
            provides: take_strs(&vs[16]),
        };
        if d.name.as_str().is_empty() || d.version.as_str().is_empty() {
            return Err(Error::custom("empty name or version".to_owned()));
        }
        Ok(d)
    }
}


/// Why a package directory does not hold a valid local package.
#[derive(Debug)]
pub enum LoadCause {
    /// The descriptor did not decode.
    Decode(Error),
    /// The descriptor names another package.
    NameMismatch { expected: String, found: String },
    /// The descriptor names another version.
    VersionMismatch { expected: String, found: String },
}

/// A failure to load a local package.
#[derive(Debug)]
pub enum LoadError {
    /// The package named `name` is not valid.
    InvalidLocalPackage { name: String, cause: LoadCause },
    /// The manifest could not be decompressed or read; the message says why.
    Manifest(String),
}

/// An installed package: its directory, its descriptor and its file manifest.
#[derive(Debug)]
pub struct Package {
    pub path: String,
    desc: PackageDesc,
    files: Vec<ManifestEntry>,
}

/// The paths of package metadata that are never installed.
pub open spec fn is_reserved(p: Seq<char>) -> bool {
    p == "./.PKGINFO"@ || p == "./.BUILDINFO"@ || p == "./.INSTALL"@
}

/// Whether an entry's size counts towards the installed size.
pub open spec fn counts(e: ManifestEntry) -> bool {
    e.file_type == Some(FileType::File) && !is_reserved(e.path@)
}

/// The bytes that an entry adds to the installed size.
pub open spec fn entry_size(e: ManifestEntry) -> nat {
    if counts(e) {
        match e.size {
            Some(n) => n as nat,
            None => 0,
        }
    } else {
        0
    }
}

/// The installed size of a manifest.
pub open spec fn size_sum(es: Seq<ManifestEntry>) -> nat
    decreases es.len(),
{
    if es.len() == 0 {
        0
    } else {
        size_sum(es.drop_last()) + entry_size(es.last())
    }
}

/// The findings for one entry, given what the filesystem holds at its path.
/// An entry classified `Other` is never compared by classification.
pub open spec fn entry_findings(e: ManifestEntry, st: FileStat) -> Seq<FindingModel> {
    match st {
        FileStat::NotFound => seq![FindingModel::FileNotFound(e.path@)],
        FileStat::Found { file_type, len } => {
            let by_type = match e.file_type {
                Some(t) => if t != FileType::Other && t != file_type {
                    seq![FindingModel::WrongType { expected: t, actual: file_type }]
                } else {
                    seq![]
                },
                None => seq![],
            };
            let by_size = match e.size {
                Some(n) => if n != len {
                    seq![FindingModel::WrongSize { expected: n, actual: len }]
                } else {
                    seq![]
                },
                None => seq![],
            };
            by_type + by_size
        },
    }
}

/// The findings for a manifest, entry by entry.
pub open spec fn all_findings(es: Seq<ManifestEntry>, sts: Seq<FileStat>) -> Seq<FindingModel>
    decreases es.len(),
{
    if es.len() == 0 || es.len() != sts.len() {
        seq![]
    } else {
        all_findings(es.drop_last(), sts.drop_last()) + entry_findings(es.last(), sts.last())
    }
}

impl Package {
    pub closed spec fn spec_path(&self) -> Seq<char> {
        self.path@
    }

    pub closed spec fn spec_desc(&self) -> DescModel {
        self.desc@
    }

    pub closed spec fn spec_files(&self) -> Seq<ManifestEntry> {
        self.files@
    }

    /// Assembles a package from the text of its descriptor and its manifest
    /// entries, checking the descriptor's name and version against
    /// `name` and `version`.
    pub fn from_parts(path: String, desc_text: &str, files: Vec<ManifestEntry>, name: &str, version: &str) -> (r: Result<Package, LoadError>)
        ensures
            match desc_result(desc_text@) {
                Err(e) => r matches Err(LoadError::InvalidLocalPackage { name: n, cause: LoadCause::Decode(x) })
                    && n@ == name@ && x.spec_kind() == e,
                Ok(d) => if d.name != name@ {
                    r matches Err(LoadError::InvalidLocalPackage { name: n, cause: LoadCause::NameMismatch { expected, found } })
                        && n@ == name@ && expected@ == name@ && found@ == d.name
                } else if d.version != version@ {
                    r matches Err(LoadError::InvalidLocalPackage { name: n, cause: LoadCause::VersionMismatch { expected, found } })
                        && n@ == name@ && expected@ == version@ && found@ == d.version
                } else {
                    r matches Ok(p) && p.spec_path() == path@ && p.spec_desc() == d && p.spec_files() == files@
                },
            },
    {
        let desc = match PackageDesc::decode(desc_text) {
            Ok(d) => d,
            Err(e) => {
                return Err(LoadError::InvalidLocalPackage { name: name.to_owned(), cause: LoadCause::Decode(e) });
            },
        };
        let want_name = chars_of(name);
        if !chars_eq(&chars_of(desc.name.as_str()), &want_name) {
            return Err(
                LoadError::InvalidLocalPackage {
                    name: name.to_owned(),
                    cause: LoadCause::NameMismatch { expected: name.to_owned(), found: desc.name },
                },
            );
        }
        if !chars_eq(&chars_of(desc.version.as_str()), &chars_of(version)) {
            return Err(
                LoadError::InvalidLocalPackage {
                    name: name.to_owned(),
                    cause: LoadCause::VersionMismatch { expected: version.to_owned(), found: desc.version },
                },
            );
        }
        Ok(Package { path, desc, files })
    }

    /// Assembles a package from the text of its descriptor and its
    /// gzip-compressed manifest. The descriptor is checked first, as in
    /// `from_parts`; a manifest that does not decompress, holds a line shape
    /// outside `manifest_safe`, or that the reader refuses fails with
    /// `Manifest`. Otherwise the package holds the reader's entries in order.
    pub fn from_raw(path: String, desc_text: &str, manifest_gz: &Vec<u8>, name: &str, version: &str) -> (r: Result<Package, LoadError>)
        ensures
            match desc_result(desc_text@) {
                Err(e) => r matches Err(LoadError::InvalidLocalPackage { name: n, cause: LoadCause::Decode(x) })
                    && n@ == name@ && x.spec_kind() == e,
                Ok(d) => if d.name != name@ {
                    r matches Err(LoadError::InvalidLocalPackage { name: n, cause: LoadCause::NameMismatch { expected, found } })
                        && n@ == name@ && expected@ == name@ && found@ == d.name
                } else if d.version != version@ {
                    r matches Err(LoadError::InvalidLocalPackage { name: n, cause: LoadCause::VersionMismatch { expected, found } })
                        && n@ == name@ && expected@ == version@ && found@ == d.version
                } else {
                    match gunzip_of(manifest_gz@) {
                        None => r is Err && r->Err_0 is Manifest,
                        Some(raw) => if !manifest_safe(raw) {
                            r is Err && r->Err_0 is Manifest
                        } else {
                            match manifest_entries(raw) {
                                None => r is Err && r->Err_0 is Manifest,
                                Some(es) => r matches Ok(p) && p.spec_path() == path@ && p.spec_desc() == d
                                    && files_match(p.spec_files(), es),
                            }
                        },
                    }
                },
            },
    {
        let empty: Vec<ManifestEntry> = Vec::new();
        let _checked = Package::from_parts(path.clone(), desc_text, empty, name, version)?;
        let raw = match gunzip(manifest_gz) {
            Ok(b) => b,
            Err(msg) => {
                return Err(LoadError::Manifest(msg));
            },
        };
        if !check_manifest(&raw) {
            return Err(LoadError::Manifest("the manifest holds a line shape outside the supported subset".to_owned()));
        }
        let files = match read_manifest(&raw) {
            Ok(f) => entries_from_raw(&f),
            Err(msg) => {
                return Err(LoadError::Manifest(msg));
            },
        };
        Package::from_parts(path, desc_text, files, name, version)
    }
}

/// What a gzip stream decompresses to; `None` where it is not a valid stream.
pub uninterp spec fn gunzip_of(b: Seq<u8>) -> Option<Seq<u8>>;

/// Relies on `libflate::gzip::Decoder`: it reads the gzip header in `new` and
/// yields the decompressed bytes through `Read::read_to_end`, failing on a
/// malformed stream.
#[verifier::external_body]
fn gunzip(b: &Vec<u8>) -> (r: Result<Vec<u8>, String>)
    ensures
        match gunzip_of(b@) {
            Some(d) => r matches Ok(v) && v@ == d,
            None => r is Err,
        },
{
    let mut decoder = libflate::gzip::Decoder::new(&b[..]).map_err(|e| e.to_string())?;
    let mut out = Vec::new();
    decoder.read_to_end(&mut out).map_err(|e| e.to_string())?;
    Ok(out)
}

/// The entries that the manifest reader yields for a manifest text, each as
/// its path, the word of its file type, and its size; `None` where the reader
/// fails. On full paths the result depends on the bytes alone.
pub uninterp spec fn manifest_entries(b: Seq<u8>) -> Option<Seq<(Seq<char>, Option<Seq<char>>, Option<u64>)>>;

/// A manifest entry as the reader yields it; `kind` is the reader's word for
/// the file type (`block`, `char`, `dir`, `fifo`, `file`, `link`, `socket`).
pub struct RawEntry {
    pub path: String,
    pub kind: Option<String>,
    pub size: Option<u64>,
}

pub open spec fn raw_model(e: RawEntry) -> (Seq<char>, Option<Seq<char>>, Option<u64>) {
    (e.path@, opt_view(e.kind), e.size)
}

pub open spec fn raws_view(v: Seq<RawEntry>) -> Seq<(Seq<char>, Option<Seq<char>>, Option<u64>)> {
    v.map_values(|e: RawEntry| raw_model(e))
}

/// Relies on `mtree::MTree::from_reader`: it yields the manifest's entries in
/// order, or the first error. `requires` admits only line shapes on which it
/// neither panics nor consults the working directory: no `/unset` line, no
/// relative entry, and keywords whose values it parses.
#[verifier::external_body]
fn read_manifest(b: &Vec<u8>) -> (r: Result<Vec<RawEntry>, String>)
    requires
        manifest_safe(b@),
    ensures
        match manifest_entries(b@) {
            Some(es) => r matches Ok(v) && raws_view(v@) == es,
            None => r is Err,
        },
{
    let mut out = Vec::new();
    for entry in mtree::MTree::from_reader(&b[..]) {
        let entry = entry.map_err(|e| e.to_string())?;
        let kind = entry.file_type().map(|t| match t {
            mtree::FileType::BlockDevice => "block",
            mtree::FileType::CharacterDevice => "char",
            mtree::FileType::Directory => "dir",
            mtree::FileType::Fifo => "fifo",
            mtree::FileType::File => "file",
            mtree::FileType::SymbolicLink => "link",
            mtree::FileType::Socket => "socket",
        }.to_owned());
        out.push(RawEntry { path: entry.path().to_string_lossy().into_owned(), kind, size: entry.size() });
    }
    Ok(out)
}

/// The classification of the reader's file-type word: devices, fifos and
/// sockets are all `Other`.
pub open spec fn type_of_word(w: Seq<char>) -> FileType {
    if w == "file"@ {
        FileType::File
    } else if w == "dir"@ {
        FileType::Directory
    } else if w == "link"@ {
        FileType::SymbolicLink
    } else {
        FileType::Other
    }
}

pub open spec fn kind_of(k: Option<Seq<char>>) -> Option<FileType> {
    match k {
        Some(w) => Some(type_of_word(w)),
        None => None,
    }
}

/// Whether a manifest entry is the one the reader yielded as `t`.
pub open spec fn entry_matches(e: ManifestEntry, t: (Seq<char>, Option<Seq<char>>, Option<u64>)) -> bool {
    e.path@ == t.0 && e.file_type == kind_of(t.1) && e.size == t.2
}

pub open spec fn files_match(fs: Seq<ManifestEntry>, es: Seq<(Seq<char>, Option<Seq<char>>, Option<u64>)>) -> bool {
    fs.len() == es.len() && forall|i: int| 0 <= i < fs.len() ==> entry_matches(#[trigger] fs[i], es[i])
}

impl FileType {
    /// The classification of a file-type word of the manifest reader.
    pub fn from_word(w: &str) -> (r: FileType)
        ensures
            r == type_of_word(w@),
    {
        let c = chars_of(w);
        if is_literal(&c, "file") {
            FileType::File
        } else if is_literal(&c, "dir") {
            FileType::Directory
        } else if is_literal(&c, "link") {
            FileType::SymbolicLink
        } else {
            FileType::Other
        }
    }
}

/// The manifest entries for what the reader yielded, in order.
pub fn entries_from_raw(raws: &Vec<RawEntry>) -> (r: Vec<ManifestEntry>)
    ensures
        files_match(r@, raws_view(raws@)),
{
    let mut out: Vec<ManifestEntry> = Vec::new();
    let mut i: usize = 0;
    while i < raws.len()
        invariant
            0 <= i <= raws@.len(),
            out@.len() == i,
            forall|j: int| 0 <= j < i ==> entry_matches(#[trigger] out@[j], raw_model(raws@[j])),
        decreases raws@.len() - i,
    {
        let raw = &raws[i];
        let file_type = match &raw.kind {
            Some(w) => Some(FileType::from_word(w.as_str())),
            None => None,
        };
        out.push(ManifestEntry { path: raw.path.clone(), file_type, size: raw.size });
        i = i + 1;
    }
    out
}



proof fn lemma_size_sum_prefix(es: Seq<ManifestEntry>, i: int)
    requires
        0 <= i <= es.len(),
    ensures
        size_sum(es.subrange(0, i)) <= size_sum(es),
    decreases es.len() - i,
{
    if i < es.len() {
        lemma_size_sum_prefix(es, i + 1);
        assert(es.subrange(0, i + 1).drop_last() =~= es.subrange(0, i));
    } else {
        assert(es.subrange(0, i) =~= es);
    }
}

fn is_reserved_path(p: &String) -> (r: bool)
    ensures
        r == is_reserved(p@),
{
    let c = chars_of(p.as_str());
    is_literal(&c, "./.PKGINFO") || is_literal(&c, "./.BUILDINFO") || is_literal(&c, "./.INSTALL")
}

fn entry_findings_exec(e: &ManifestEntry, st: FileStat, out: &mut Vec<ValidationError>)
    ensures
        findings_view(final(out)@) == findings_view(old(out)@) + entry_findings(*e, st),
{
    let ghost start = findings_view(out@);
    match st {
        FileStat::NotFound => {
            out.push(ValidationError::file_not_found(e.path.clone()));
            assert(findings_view(out@) =~= start + entry_findings(*e, st));
        },
        FileStat::Found { file_type, len } => {
            let ghost by_type = match e.file_type {
                Some(t) => if t != FileType::Other && t != file_type {
                    seq![FindingModel::WrongType { expected: t, actual: file_type }]
                } else {
                    seq![]
                },
                None => seq![],
            };
            match e.file_type {
                Some(t) => {
                    if t != FileType::Other && t != file_type {
                        out.push(ValidationError::wrong_type(t, file_type));
                    }
                },
                None => {},
            }
            assert(findings_view(out@) =~= start + by_type);
            match e.size {
                Some(n) => {
                    if n != len {
                        out.push(ValidationError::wrong_size(n, len));
                    }
                },
                None => {},
            }
            assert(findings_view(out@) =~= start + entry_findings(*e, st));
        },
    }
}

impl Package {
    /// The total number of bytes that the package's regular files take up,
    /// leaving out the metadata files `./.PKGINFO`, `./.BUILDINFO` and
    /// `./.INSTALL` and every entry that is not a regular file. An entry
    /// without a size adds nothing. `None` where the total exceeds `u64`.
    pub fn total_size(&self) -> (r: Option<u64>)
        ensures
            r == (if size_sum(self.spec_files()) <= u64::MAX {
                Some(size_sum(self.spec_files()) as u64)
            } else {
                None::<u64>
            }),
    {
        let mut acc: u64 = 0;
        let mut i: usize = 0;
        while i < self.files.len()
            invariant
                0 <= i <= self.files@.len(),
                acc as nat == size_sum(self.files@.subrange(0, i as int)),
            decreases self.files@.len() - i,
        {
            let file = &self.files[i];
            assert(self.files@.subrange(0, i + 1).drop_last() =~= self.files@.subrange(0, i as int));
            let skip = is_reserved_path(&file.path) || file.file_type != Some(FileType::File);
            if !skip {
                match file.size {
                    Some(n) => {
                        if acc > u64::MAX - n {
                            proof {
                                lemma_size_sum_prefix(self.files@, i + 1);
                            }
                            return None;
                        }
                        acc = acc + n;
                    },
                    None => {},
                }
            }
            i = i + 1;
        }
        assert(self.files@.subrange(0, self.files@.len() as int) =~= self.files@);
        Some(acc)
    }

    /// The discrepancies between the manifest and the filesystem, given, for
    /// each manifest entry in order, what the filesystem holds at its path.
    /// Every entry is checked; none stops the others.
    pub fn validate_with(&self, stats: &Vec<FileStat>) -> (r: Vec<ValidationError>)
        requires
            stats@.len() == self.spec_files().len(),
        ensures
            findings_view(r@) == all_findings(self.spec_files(), stats@),
    {
        let mut out: Vec<ValidationError> = Vec::new();
        let mut i: usize = 0;
        assert(findings_view(out@) =~= Seq::<FindingModel>::empty());
        while i < self.files.len()
            invariant
                0 <= i <= self.files@.len(),
                stats@.len() == self.files@.len(),
                findings_view(out@) == all_findings(self.files@.subrange(0, i as int), stats@.subrange(0, i as int)),
            decreases self.files@.len() - i,
        {
            assert(self.files@.subrange(0, i + 1).drop_last() =~= self.files@.subrange(0, i as int));
            assert(stats@.subrange(0, i + 1).drop_last() =~= stats@.subrange(0, i as int));
            entry_findings_exec(&self.files[i], stats[i], &mut out);
            i = i + 1;
        }
        assert(self.files@.subrange(0, self.files@.len() as int) =~= self.files@);
        assert(stats@.subrange(0, stats@.len() as int) =~= stats@);
        out
    }
}

impl Package {
    /// The package name.
    pub fn name(&self) -> (r: &str)
        ensures
            r@ == self.spec_desc().name,
    {
        self.desc.name.as_str()
    }

    /// The package version.
    pub fn version(&self) -> (r: &str)
        ensures
            r@ == self.spec_desc().version,
    {
        self.desc.version.as_str()
    }

    /// The base of this package, if any.
    pub fn base(&self) -> (r: Option<&str>)
        ensures
            match r {
                Some(s) => self.spec_desc().base == Some(s@),
                None => self.spec_desc().base is None,
            },
    {
        match &self.desc.base {
            Some(s) => Some(s.as_str()),
            None => None,
        }
    }

    /// The package description.
    pub fn description(&self) -> (r: &str)
        ensures
            r@ == self.spec_desc().description,
    {
        self.desc.description.as_str()
    }

    /// The groups this package is in.
    pub fn groups(&self) -> (r: &[String])
        ensures
            strings_view(r@) == self.spec_desc().groups,
    {
        self.desc.groups.as_slice()
    }

    /// The url of this package.
    pub fn url(&self) -> (r: &str)
        ensures
            r@ == self.spec_desc().url,
    {
        self.desc.url.as_str()
    }

    /// The license of this package, if any.
    pub fn license(&self) -> (r: Option<&str>)
        ensures
            match r {
                Some(s) => self.spec_desc().license == Some(s@),
                None => self.spec_desc().license is None,
            },
    {
        match &self.desc.license {
            Some(s) => Some(s.as_str()),
            None => None,
        }
    }

    /// The architecture this package is built for.
    pub fn arch(&self) -> (r: &str)
        ensures
            r@ == self.spec_desc().arch,
    {
        self.desc.arch.as_str()
    }

    /// Who built this package.
    pub fn packager(&self) -> (r: &str)
        ensures
            r@ == self.spec_desc().packager,
    {
        self.desc.packager.as_str()
    }

    /// Why this package was installed, if recorded.
    pub fn reason(&self) -> (r: Option<Reason>)
        ensures
            r == self.spec_desc().reason,
    {
        self.desc.reason
    }

    /// The ways this package can be validated.
    pub fn validation(&self) -> (r: &[Validation])
        ensures
            r@ == self.spec_desc().validation,
    {
        self.desc.validation.as_slice()
    }

    /// The size of this package in bytes.
    pub fn size(&self) -> (r: u64)
        ensures
            r == self.spec_desc().size,
    {
        self.desc.size
    }

    /// The packages this package replaces.
    pub fn replaces(&self) -> (r: &[String])
        ensures
            strings_view(r@) == self.spec_desc().replaces,
    {
        self.desc.replaces.as_slice()
    }

    /// The packages this package depends on.
    pub fn depends(&self) -> (r: &[String])
        ensures
            strings_view(r@) == self.spec_desc().depends,
    {
        self.desc.depends.as_slice()
    }

    /// The packages this package optionally depends on.
    pub fn optional_depends(&self) -> (r: &[String])
        ensures
            strings_view(r@) == self.spec_desc().optional_depends,
    {
        self.desc.optional_depends.as_slice()
    }

    /// The packages this package conflicts with.
    pub fn conflicts(&self) -> (r: &[String])
        ensures
            strings_view(r@) == self.spec_desc().conflicts,
    {
        self.desc.conflicts.as_slice()
    }

    /// The virtual packages this package provides.
    pub fn provides(&self) -> (r: &[String])
        ensures
            strings_view(r@) == self.spec_desc().provides,
    {
        self.desc.provides.as_slice()
    }

    /// The paths of the files in this package's manifest, in order.
    pub fn file_names(&self) -> (r: Vec<&str>)
        ensures
            r@.len() == self.spec_files().len(),
            forall|i: int| 0 <= i < r@.len() ==> (#[trigger] r@[i])@ == self.spec_files()[i].path@,
    {
        let mut out: Vec<&str> = Vec::new();
        let mut i: usize = 0;
        while i < self.files.len()
            invariant
                0 <= i <= self.files@.len(),
                out@.len() == i,
                forall|j: int| 0 <= j < i ==> (#[trigger] out@[j])@ == self.files@[j].path@,
            decreases self.files@.len() - i,
        {
            out.push(self.files[i].path.as_str());
            i = i + 1;
        }
        out
    }

    /// The manifest entries of this package, in order.
    pub fn files(&self) -> (r: &[ManifestEntry])
        ensures
            r@ == self.spec_files(),
    {
        self.files.as_slice()
    }
}


impl crate::db::Package for Package {
    fn name(&self) -> &str {
        self.desc.name.as_str()
    }
}


/// Whether `k` is the key of a field of the package descriptor schema.
pub open spec fn is_desc_key(k: Seq<char>) -> bool {
    exists|j: int| 0 <= j < desc_schema_model().len() && (#[trigger] desc_schema_model()[j]).key == k
}

/// Two descriptor texts whose sections differ only by one extra section,
/// whose key the descriptor schema does not name, decode to the same
/// descriptor, or fail alike.
pub proof fn lemma_desc_ignores_unknown_section(t1: Seq<char>, t2: Seq<char>, x: SectionModel, p: int)
    requires
        sections_of(lines_of(t1)) matches Some(ss) && 0 <= p <= ss.len()
            && sections_of(lines_of(t2)) == Some(ss.insert(p, x)),
        !is_desc_key(x.key),
    ensures
        desc_result(t1) == desc_result(t2),
{
    let ss = sections_of(lines_of(t1))->Some_0;
    let fs = desc_schema_model();
    assert forall|j: int| 0 <= j < fs.len() implies (#[trigger] fs[j]).key != x.key by {
        if fs[j].key == x.key {
            assert(is_desc_key(x.key));
        }
    }
    lemma_unknown_section_ignored(fs, ss, x, p);
}

/// An entry whose path holds nothing gives exactly one finding: the missing file.
pub proof fn lemma_missing_file_one_finding(e: ManifestEntry)
    ensures
        entry_findings(e, FileStat::NotFound) == seq![FindingModel::FileNotFound(e.path@)],
{
}

/// An entry whose declared size differs from the file's length, and whose
/// declared classification is absent or matches, gives exactly one finding:
/// the wrong size.
pub proof fn lemma_wrong_size_one_finding(e: ManifestEntry, file_type: FileType, len: u64)
    requires
        e.size matches Some(n) && n != len,
        e.file_type is None || e.file_type == Some(file_type),
    ensures
        entry_findings(e, FileStat::Found { file_type, len }) == seq![
            FindingModel::WrongSize { expected: e.size->Some_0, actual: len },
        ],
{
    assert(entry_findings(e, FileStat::Found { file_type, len }) =~= seq![
        FindingModel::WrongSize { expected: e.size->Some_0, actual: len },
    ]);
}

/// The findings of a manifest are those of its entries, in order: the
/// findings of a prefix come first, and an entry's own findings follow.
pub proof fn lemma_findings_of_entry(es: Seq<ManifestEntry>, sts: Seq<FileStat>, i: int)
    requires
        es.len() == sts.len(),
        0 <= i < es.len(),
    ensures
        all_findings(es.subrange(0, i + 1), sts.subrange(0, i + 1)) == all_findings(es.subrange(0, i), sts.subrange(0, i))
            + entry_findings(es[i], sts[i]),
{
    assert(es.subrange(0, i + 1).drop_last() =~= es.subrange(0, i));
    assert(sts.subrange(0, i + 1).drop_last() =~= sts.subrange(0, i));
}


/// A descriptor text whose sections are written back as text decodes to the
/// same package descriptor as the original text.
pub proof fn lemma_desc_reencode_round_trip(text: Seq<char>)
    requires
        sections_of(lines_of(text)) is Some,
    ensures
        desc_result(crate::encode::encode_text(sections_of(lines_of(text))->Some_0)) == desc_result(text),
{
    crate::encode::lemma_decode_encode_round_trip(text);
}

} // verus!
