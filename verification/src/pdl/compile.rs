//! The compiler: from the text of the schema files to the bindings.
//!
//! The stages run one after the other, each on what the one before it
//! gave: the lexer and the parser on every file, the merger on the files
//! together, then the resolver, the filter and the generator. The first
//! stage that fails ends the compilation with its error: there are no
//! bindings of a part of a schema.

use vstd::prelude::*;

use super::filter::{
    filter, filtered, lemma_filter_monotonic, takes_more_deprecated, Config, PrunedDependency,
};
use super::generate::{artifact_defs, artifact_text, generate, lemma_artifact_defs, Artifact};
use super::lexer::{lex, tokens_of, LexError, LexErrorView};
use super::merge::{merge, merged, DuplicateDefinition};
use super::model::{
    lemma_bytes_view, lemma_push_deep_view, Domain, DomainView, QualifiedName, QualifiedNameView,
    SchemaView, TypeRefView,
};
use super::parser::{parse, parsed, ParseError, ParseErrorView, SchemaFile, SchemaFileView};
use super::pruning::{
    in_bindings, lemma_present_is_in_bindings, lemma_pruned_has_no_redirects,
    lemma_pruning_is_sound, present, well_referenced,
};
use super::references::{
    canonical, lemma_canonical_has_no_redirects, lemma_reference_errors, ReferenceErrorView,
};
use super::resolver::{
    names_bad_cycle, resolution, resolve, AllowList, ReferencePair, ReferencePairView, Resolution,
    ResolveError,
};

verus! {

/// Why a file is no schema.
#[derive(Debug)]
pub enum SourceError {
    Lex(LexError),
    Parse(ParseError),
}

/// The view of a [`SourceError`].
pub enum SourceErrorView {
    Lex(LexErrorView),
    Parse(ParseErrorView),
}

impl DeepView for SourceError {
    type V = SourceErrorView;

    open spec fn deep_view(&self) -> SourceErrorView {
        match *self {
            SourceError::Lex(e) => SourceErrorView::Lex(e.deep_view()),
            SourceError::Parse(e) => SourceErrorView::Parse(e.deep_view()),
        }
    }
}

/// Why a compilation failed. An error of the lexer or of the parser comes
/// with the index of the file it is in.
#[derive(Debug)]
pub enum CompileError {
    Source { file: usize, error: SourceError },
    DuplicateDefinition(DuplicateDefinition),
    UnresolvedType(QualifiedName),
    RedirectCycle(QualifiedName),
    CircularDependency(Vec<ReferencePair>),
    PrunedDependency(PrunedDependency),
}

/// What a compilation gives.
#[derive(Debug)]
pub struct Output {
    /// The bindings.
    pub artifact: Artifact,
    /// The version of the protocol that the bindings are for: that of the
    /// header of the first file.
    pub revision: Vec<u8>,
}

/// What the text of one file holds.
pub open spec fn source_of(text: Seq<u8>) -> Result<SchemaFileView, SourceErrorView> {
    match tokens_of(text) {
        Err(e) => Err(SourceErrorView::Lex(e)),
        Ok(tokens) => match parsed(text, tokens) {
            Ok(file) => Ok(file),
            Err(e) => Err(SourceErrorView::Parse(e)),
        },
    }
}

/// `acc` followed by the domains of the files from `from` on, or the index
/// of the first file that is no schema, with its error.
pub open spec fn files_from(sources: Seq<Seq<u8>>, from: int, acc: Seq<Seq<DomainView>>) -> Result<
    Seq<Seq<DomainView>>,
    (int, SourceErrorView),
>
    decreases sources.len() - from,
{
    if from >= sources.len() {
        Ok(acc)
    } else {
        match source_of(sources[from]) {
            Ok(file) => files_from(sources, from + 1, acc.push(file.domains)),
            Err(e) => Err((from, e)),
        }
    }
}

/// The version of the protocol: that of the first file, or nothing where
/// there is no file.
pub open spec fn revision_of(sources: Seq<Seq<u8>>) -> Seq<u8> {
    if sources.len() > 0 {
        match source_of(sources[0]) {
            Ok(file) => file.version,
            Err(_) => Seq::empty(),
        }
    } else {
        Seq::empty()
    }
}

/// How a compilation ends.
pub enum Outcome {
    /// With the bindings of this schema, which is resolved and pruned.
    Done(SchemaView),
    /// With the error of the file with this index.
    BadSource(int, SourceErrorView),
    Duplicate(QualifiedNameView),
    BadReference(ReferenceErrorView),
    /// With a cycle of the dependency graph of this schema, which is in
    /// canonical form, that holds a reference that is not allowed.
    BadCycle(SchemaView),
    Pruned(ReferencePairView),
}

/// How the compilation of these files ends.
pub open spec fn outcome(sources: Seq<Seq<u8>>, allow: Seq<ReferencePairView>, cfg: Config) -> Outcome {
    match files_from(sources, 0, Seq::empty()) {
        Err((i, e)) => Outcome::BadSource(i, e),
        Ok(files) => match merged(files) {
            Err(e) => Outcome::Duplicate(e),
            Ok(schema) => match resolution(schema, allow) {
                Resolution::BadReference(e) => Outcome::BadReference(e),
                Resolution::BadCycle => Outcome::BadCycle(canonical(schema)->Ok_0),
                Resolution::Resolved(c) => match filtered(c, cfg) {
                    Err(e) => Outcome::Pruned(e),
                    Ok(f) => Outcome::Done(f),
                },
            },
        },
    }
}

/// Whether `r` is what the compilation of these files gives.
pub open spec fn is_compiled(
    sources: Seq<Seq<u8>>,
    allow: Seq<ReferencePairView>,
    cfg: Config,
    r: Result<Output, CompileError>,
) -> bool {
    match outcome(sources, allow, cfg) {
        Outcome::Done(f) => r matches Ok(out) && out.artifact.text@ == artifact_text(f)
            && out.artifact.definitions.deep_view() == artifact_defs(f) && out.revision@
            == revision_of(sources),
        Outcome::BadSource(i, e) => r matches Err(CompileError::Source { file, error }) && file
            == i && error.deep_view() == e,
        Outcome::Duplicate(e) => r matches Err(CompileError::DuplicateDefinition(x))
            && x.deep_view() == e,
        Outcome::BadReference(ReferenceErrorView::Unresolved(n)) => r matches Err(
            CompileError::UnresolvedType(x),
        ) && x.deep_view() == n,
        Outcome::BadReference(ReferenceErrorView::RedirectCycle(n)) => r matches Err(
            CompileError::RedirectCycle(x),
        ) && x.deep_view() == n,
        Outcome::BadCycle(c) => r matches Err(CompileError::CircularDependency(path))
            && names_bad_cycle(c, allow, path.deep_view()),
        Outcome::Pruned(e) => r matches Err(CompileError::PrunedDependency(x)) && x.deep_view()
            == e,
    }
}

/// Reads one schema file: splits its text into tokens and parses them.
pub fn parse_source(text: &[u8]) -> (r: Result<SchemaFile, SourceError>)
    ensures
        match source_of(text@) {
            Ok(file) => r matches Ok(x) && x.deep_view() == file,
            Err(e) => r matches Err(x) && x.deep_view() == e,
        },
{
    match lex(text) {
        Err(e) => Err(SourceError::Lex(e)),
        Ok(tokens) => match parse(text, tokens.as_slice()) {
            Ok(file) => Ok(file),
            Err(e) => Err(SourceError::Parse(e)),
        },
    }
}

/// Compiles the schema files, the primary one first, into the bindings
/// of their protocol. Definitions of a stability tier that `config` does
/// not take in are left out. A cycle among the domains is accepted if
/// `allow` lists every reference on it; the cycles are those of the whole
/// schema, before anything is pruned.
///
/// The result is a function of the texts, the list and the configuration
/// alone: compiling the same input again gives the same bindings, byte for
/// byte.
#[verifier::rlimit(40)]
pub fn compile(sources: &Vec<Vec<u8>>, allow: &AllowList, config: Config) -> (r: Result<
    Output,
    CompileError,
>)
    ensures
        is_compiled(sources.deep_view(), allow.deep_view(), config, r),
{
    let ghost sv = sources.deep_view();
    let mut files: Vec<Vec<Domain>> = Vec::new();
    let mut revision: Vec<u8> = Vec::new();
    assert(files.deep_view() =~= Seq::<Seq<DomainView>>::empty());
    assert(revision@ =~= Seq::<u8>::empty());
    let mut i: usize = 0;
    while i < sources.len()
        invariant
            i <= sources.len(),
            sv == sources.deep_view(),
            sv.len() == sources.len(),
            files_from(sv, 0, Seq::empty()) == files_from(sv, i as int, files.deep_view()),
            i > 0 ==> revision@ == revision_of(sv),
            i == 0 ==> revision@ == Seq::<u8>::empty(),
        decreases sources.len() - i,
    {
        proof {
            lemma_bytes_view(sources@[i as int]);
        }
        assert(sv[i as int] == sources@[i as int]@);
        match parse_source(sources[i].as_slice()) {
            Err(error) => {
                return Err(CompileError::Source { file: i, error });
            },
            Ok(file) => {
                let SchemaFile { version, domains } = file;
                if i == 0 {
                    revision = version;
                }
                let ghost before = files;
                files.push(domains);
                proof {
                    lemma_push_deep_view(before, files, domains);
                }
            },
        }
        i += 1;
    }
    let schema = match merge(files) {
        Ok(s) => s,
        Err(e) => {
            return Err(CompileError::DuplicateDefinition(e));
        },
    };
    let resolved = match resolve(&schema, allow) {
        Ok(c) => c,
        Err(errors) => {
            // The resolver reports all it finds; the first of it is the
            // error of the compilation.
            let mut errors = errors;
            proof {
                lemma_reference_errors(schema.deep_view());
            }
            return match errors.remove(0) {
                ResolveError::UnresolvedType(n) => Err(CompileError::UnresolvedType(n)),
                ResolveError::RedirectCycle(n) => Err(CompileError::RedirectCycle(n)),
                ResolveError::CircularDependency(path) => Err(
                    CompileError::CircularDependency(path),
                ),
            };
        },
    };
    let pruned = match filter(&resolved, config) {
        Ok(f) => f,
        Err(e) => {
            return Err(CompileError::PrunedDependency(e));
        },
    };
    let artifact = generate(&pruned);
    Ok(Output { artifact, revision })
}

/// Determinism: whatever two compilations of the same input give, if the
/// one gives bindings, the other gives the same bindings, byte for byte.
pub proof fn lemma_compile_deterministic(
    sources: Seq<Seq<u8>>,
    allow: Seq<ReferencePairView>,
    cfg: Config,
    first: Result<Output, CompileError>,
    second: Result<Output, CompileError>,
)
    requires
        is_compiled(sources, allow, cfg, first),
        is_compiled(sources, allow, cfg, second),
        first is Ok,
    ensures
        second is Ok,
        second->Ok_0.artifact.text@ == first->Ok_0.artifact.text@,
        second->Ok_0.artifact.definitions.deep_view() == first->Ok_0.artifact.definitions.deep_view(),
        second->Ok_0.revision@ == first->Ok_0.revision@,
{
}

/// Stability filtering is monotonic. Where the same files compile both
/// without and with what is deprecated, while the two configurations agree
/// on what is experimental, every definition of the bindings without the
/// deprecated ones is a definition of the bindings with them.
pub proof fn lemma_deprecated_monotonic(
    sources: Seq<Seq<u8>>,
    allow: Seq<ReferencePairView>,
    lo: Config,
    hi: Config,
    q: QualifiedNameView,
)
    requires
        takes_more_deprecated(lo, hi),
        outcome(sources, allow, lo) is Done,
        outcome(sources, allow, hi) is Done,
        outcome(sources, allow, lo)->Done_0.domains.len() <= usize::MAX,
        outcome(sources, allow, hi)->Done_0.domains.len() <= usize::MAX,
    ensures
        artifact_defs(outcome(sources, allow, lo)->Done_0).contains(q) ==> artifact_defs(
            outcome(sources, allow, hi)->Done_0,
        ).contains(q),
{
    let files = files_from(sources, 0, Seq::empty())->Ok_0;
    let schema = merged(files)->Ok_0;
    let c = resolution(schema, allow)->Resolved_0;
    lemma_filter_monotonic(c, lo, hi);
    lemma_artifact_defs(filtered(c, lo)->Ok_0, q);
    lemma_artifact_defs(filtered(c, hi)->Ok_0, q);
}

/// Soundness of pruning: whatever the configuration, the schema that the
/// bindings are generated from refers to no type that is absent from it,
/// and the bindings define every type that a reference of it names.
pub proof fn lemma_output_is_sound(sources: Seq<Seq<u8>>, allow: Seq<ReferencePairView>, cfg: Config)
    requires
        outcome(sources, allow, cfg) is Done,
        outcome(sources, allow, cfg)->Done_0.domains.len() <= usize::MAX,
    ensures
        well_referenced(outcome(sources, allow, cfg)->Done_0),
        forall|owner: int, r: TypeRefView|
            #[trigger] present(outcome(sources, allow, cfg)->Done_0, owner, r) ==> in_bindings(
                outcome(sources, allow, cfg)->Done_0,
                owner,
                r,
            ),
{
    let files = files_from(sources, 0, Seq::empty())->Ok_0;
    let schema = merged(files)->Ok_0;
    let c = resolution(schema, allow)->Resolved_0;
    let f = outcome(sources, allow, cfg)->Done_0;
    lemma_pruning_is_sound(c, cfg);
    lemma_canonical_has_no_redirects(schema);
    lemma_pruned_has_no_redirects(c, cfg);
    assert forall|owner: int, r: TypeRefView| #[trigger] present(f, owner, r) implies in_bindings(
        f,
        owner,
        r,
    ) by {
        lemma_present_is_in_bindings(f, owner, r);
    }
}

} // verus!
