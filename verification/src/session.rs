//! Sessions: a compiled definition to which modules are added.

use vstd::prelude::*;
use vstd::utf8::encode_utf8;
use sha2::{Digest, Sha256};
use std::sync::Arc;
use crate::assoc::{assoc, assoc_bound, assoc_get, assoc_insert, law_bound, law_bound_again};
use crate::internalize::{DefinitionError, DefinitionErrorV};
use crate::kernel::result_view;
use crate::kore::{
    KoreDefinition, KoreDefinitionV, KoreModule, KoreModuleV, KoreSentence, KoreSentenceV,
};
use crate::model::{deep, group_deep, Value};
use crate::ops::Keyed;

verus! {

broadcast use group_deep;

/// Why a module cannot be added, or selected.
#[derive(Debug, PartialEq, Eq)]
pub enum SessionError {
    Definition(DefinitionError),
    IntroducesSorts(Vec<String>),
    IntroducesSymbols(Vec<String>),
    DuplicateModuleName(String),
}

/// The view of [`SessionError`].
pub enum SessionErrorV {
    Definition(DefinitionErrorV),
    IntroducesSorts(Seq<Seq<char>>),
    IntroducesSymbols(Seq<Seq<char>>),
    DuplicateModuleName(Seq<char>),
}

impl View for SessionError {
    type V = SessionErrorV;

    open spec fn view(&self) -> SessionErrorV {
        match self {
            SessionError::Definition(first) => SessionErrorV::Definition(first@),
            SessionError::IntroducesSorts(first) => SessionErrorV::IntroducesSorts(deep(first@)),
            SessionError::IntroducesSymbols(first) => SessionErrorV::IntroducesSymbols(
                deep(first@),
            ),
            SessionError::DuplicateModuleName(first) => SessionErrorV::DuplicateModuleName(first@),
        }
    }
}

impl DeepView for SessionError {
    type V = SessionErrorV;

    open spec fn deep_view(&self) -> SessionErrorV {
        self@
    }
}

impl Value for SessionError {
    fn duplicate(&self) -> (copy: Self) {
        match self {
            SessionError::Definition(first) => SessionError::Definition(first.duplicate()),
            SessionError::IntroducesSorts(first) => SessionError::IntroducesSorts(
                first.duplicate(),
            ),
            SessionError::IntroducesSymbols(first) => SessionError::IntroducesSymbols(
                first.duplicate(),
            ),
            SessionError::DuplicateModuleName(first) => SessionError::DuplicateModuleName(
                first.clone(),
            ),
        }
    }

    fn equals(&self, other: &Self) -> (same: bool) {
        match (self, other) {
            (
                SessionError::Definition(first),
                SessionError::Definition(other_first),
            ) => first.equals(other_first),
            (SessionError::IntroducesSorts(first), SessionError::IntroducesSorts(other_first)) => first.equals(
                other_first,
            ),
            (
                SessionError::IntroducesSymbols(first),
                SessionError::IntroducesSymbols(other_first),
            ) => first.equals(other_first),
            (
                SessionError::DuplicateModuleName(first),
                SessionError::DuplicateModuleName(other_first),
            ) => *first == *other_first,
            _ => false,
        }
    }
}

// ---------------------------------------------------------------------------------------------
// The identity of a module
// ---------------------------------------------------------------------------------------------
/// The SHA-256 digest of `data`.
pub uninterp spec fn sha256_of(data: Seq<u8>) -> Seq<u8>;

/// `sha2::Sha256::digest`. The contract claims that the digest is a function of the data alone, and
/// that it has 32 bytes.
#[verifier::external_body]
fn sha256(data: &[u8]) -> (digest: Vec<u8>)
    ensures
        digest@ == sha256_of(data@),
        digest@.len() == 32,
{
    Sha256::digest(data).to_vec()
}

/// `std::sync::Arc::clone`. The contract claims that the result points to the same value.
#[verifier::external_body]
fn share<T>(value: &Arc<T>) -> (shared: Arc<T>)
    ensures
        shared == *value,
{
    Arc::clone(value)
}

/// The digit for a number below sixteen.
pub open spec fn hex_digit(value: u8) -> Seq<char> {
    if value == 0 {
        "0"@
    } else if value == 1 {
        "1"@
    } else if value == 2 {
        "2"@
    } else if value == 3 {
        "3"@
    } else if value == 4 {
        "4"@
    } else if value == 5 {
        "5"@
    } else if value == 6 {
        "6"@
    } else if value == 7 {
        "7"@
    } else if value == 8 {
        "8"@
    } else if value == 9 {
        "9"@
    } else if value == 10 {
        "a"@
    } else if value == 11 {
        "b"@
    } else if value == 12 {
        "c"@
    } else if value == 13 {
        "d"@
    } else if value == 14 {
        "e"@
    } else {
        "f"@
    }
}

fn hex_text(value: u8) -> (text: &'static str)
    ensures
        text@ == hex_digit(value),
{
    match value {
        0 => "0",
        1 => "1",
        2 => "2",
        3 => "3",
        4 => "4",
        5 => "5",
        6 => "6",
        7 => "7",
        8 => "8",
        9 => "9",
        10 => "a",
        11 => "b",
        12 => "c",
        13 => "d",
        14 => "e",
        _ => "f",
    }
}

/// The bytes from `from` on in hexadecimal, two digits each, behind `text`.
pub open spec fn hexadecimal(bytes: Seq<u8>, text: Seq<char>, from: int) -> Seq<char>
    decreases bytes.len() - from,
{
    if from >= bytes.len() {
        text
    } else {
        hexadecimal(
            bytes,
            text + hex_digit((bytes[from] / 16) as u8) + hex_digit((bytes[from] % 16) as u8),
            from + 1,
        )
    }
}

/// The identity of a module with the given digest.
pub fn identity_for_digest(digest: &Vec<u8>) -> (id: String)
    ensures
        id@ == hexadecimal(digest@, "m"@, 0),
{
    let mut id = "m".to_owned();
    let mut i: usize = 0;
    while i < digest.len()
        invariant
            i <= digest.len(),
            hexadecimal(digest@, "m"@, 0) == hexadecimal(digest@, id@, i as int),
        decreases digest.len() - i,
    {
        id.append(hex_text(digest[i] / 16));
        id.append(hex_text(digest[i] % 16));
        i += 1;
    }
    id
}

/// The identity of a module with the given source.
pub open spec fn identity_of_source(source: Seq<char>) -> Seq<char> {
    hexadecimal(sha256_of(encode_utf8(source)), "m"@, 0)
}

/// The identity of a module with the given source: an `m` and the digest of the source.
pub fn module_id(source: &str) -> (id: String)
    ensures
        id@ == identity_of_source(source@),
{
    identity_for_digest(&sha256(source.as_bytes()))
}

// ---------------------------------------------------------------------------------------------
// Sessions
// ---------------------------------------------------------------------------------------------
/// What makes a definition of a module.
///
/// It is a function of its arguments: the same syntax and module give the same definition.
pub trait Compiler<D: DeepView> {
    open spec fn compiled(&self, syntax: KoreDefinitionV, module: Seq<char>) -> Result<
        D::V,
        DefinitionErrorV,
    > {
        arbitrary()
    }

    /// Make a definition of `module`.
    fn compile(&self, syntax: &KoreDefinition, module: &String) -> (result: Result<D, DefinitionError>)
        ensures
            result_view(result) == self.compiled(syntax@, module@),
    ;
}

/// A compiler that knows no module.
#[derive(Clone, Copy, Debug, PartialEq, Eq)]
pub struct NoCompiler;

impl<D: DeepView> Compiler<D> for NoCompiler {
    open spec fn compiled(&self, syntax: KoreDefinitionV, module: Seq<char>) -> Result<
        D::V,
        DefinitionErrorV,
    > {
        Err(DefinitionErrorV::UnknownModule(module))
    }

    fn compile(&self, syntax: &KoreDefinition, module: &String) -> (result: Result<
        D,
        DefinitionError,
    >) {
        Err(DefinitionError::UnknownModule(module.duplicate()))
    }
}

/// The definitions that are derived from one definition and the modules added to it.
///
/// A module is added as a whole or not at all. The definitions that were handed out stay as they
/// are, and so does the default module.
#[derive(Debug)]
pub struct BackendSession<D: DeepView> {
    pub syntax: KoreDefinition,
    pub default_module: String,
    pub definitions: Vec<(String, Arc<D>)>,
    /// The sources of the added modules, by identity.
    pub added_sources: Vec<(String, String)>,
    /// The identities of the added modules, by name.
    pub module_aliases: Vec<(String, String)>,
    /// What the default module stands for, where a module that was added later would change it.
    pub selected: Option<String>,
}

/// The view of a [`BackendSession`].
pub struct BackendSessionV<W> {
    pub syntax: KoreDefinitionV,
    pub default_module: Seq<char>,
    pub definitions: Seq<(Seq<char>, W)>,
    pub added_sources: Seq<(Seq<char>, Seq<char>)>,
    pub module_aliases: Seq<(Seq<char>, Seq<char>)>,
    pub selected: Option<Seq<char>>,
}

impl<D: DeepView> View for BackendSession<D> {
    type V = BackendSessionV<D::V>;

    open spec fn view(&self) -> BackendSessionV<D::V> {
        BackendSessionV {
            syntax: self.syntax@,
            default_module: self.default_module@,
            definitions: deep(self.definitions@),
            added_sources: deep(self.added_sources@),
            module_aliases: deep(self.module_aliases@),
            selected: self.selected.deep_view(),
        }
    }
}

/// Whether a module from `from` on is called `name`.
pub open spec fn declares(modules: Seq<KoreModuleV>, name: Seq<char>, from: int) -> bool
    decreases modules.len() - from,
{
    from < modules.len() && (modules[from].name == name || declares(modules, name, from + 1))
}

/// Whether `name` is that of a definition or of a module, and not merely a name for one that was
/// added.
pub open spec fn stands_alone<W>(session: BackendSessionV<W>, name: Seq<char>) -> bool {
    assoc(session.definitions, name) is Some || declares(session.syntax.modules, name, 0)
}

/// What the default module stands for, where that is settled. It stands for the module that was
/// added under its name only where there was no other before.
pub open spec fn settled<W>(session: BackendSessionV<W>) -> Option<Seq<char>> {
    match session.selected {
        Some(id) => Some(id),
        None => if stands_alone(session, session.default_module) {
            Some(session.default_module)
        } else {
            assoc(session.module_aliases, session.default_module)
        },
    }
}

/// The identity of a module that is given by name or by identity.
pub open spec fn canonical<W>(session: BackendSessionV<W>, module: Option<Seq<char>>) -> Seq<char> {
    match module {
        Some(module) => match assoc(session.module_aliases, module) {
            Some(id) => id,
            None => module,
        },
        None => match settled(session) {
            Some(id) => id,
            None => session.default_module,
        },
    }
}

/// The names of the sorts that the sentences from `from` on declare, behind `found`.
pub open spec fn declared_sorts(
    sentences: Seq<KoreSentenceV>,
    found: Seq<Seq<char>>,
    from: int,
) -> Seq<Seq<char>>
    decreases sentences.len() - from,
{
    if from >= sentences.len() {
        found
    } else {
        declared_sorts(
            sentences,
            match sentences[from] {
                KoreSentenceV::SortDeclaration { name, .. } => found.push(name),
                _ => found,
            },
            from + 1,
        )
    }
}

/// The names of the symbols that the sentences from `from` on declare, behind `found`.
pub open spec fn declared_symbols(
    sentences: Seq<KoreSentenceV>,
    found: Seq<Seq<char>>,
    from: int,
) -> Seq<Seq<char>>
    decreases sentences.len() - from,
{
    if from >= sentences.len() {
        found
    } else {
        declared_symbols(
            sentences,
            match sentences[from] {
                KoreSentenceV::SymbolDeclaration { name, .. } => found.push(name),
                _ => found,
            },
            from + 1,
        )
    }
}

/// The sentences from `from` on, behind `found`, with imports by name made imports by identity.
pub open spec fn imports_resolved(
    aliases: Seq<(Seq<char>, Seq<char>)>,
    sentences: Seq<KoreSentenceV>,
    found: Seq<KoreSentenceV>,
    from: int,
) -> Seq<KoreSentenceV>
    decreases sentences.len() - from,
{
    if from >= sentences.len() {
        found
    } else {
        imports_resolved(
            aliases,
            sentences,
            found.push(
                match sentences[from] {
                    KoreSentenceV::Import { module, attributes } => KoreSentenceV::Import {
                        module: match assoc(aliases, module) {
                            Some(id) => id,
                            None => module,
                        },
                        attributes,
                    },
                    other => other,
                },
            ),
            from + 1,
        )
    }
}

/// `session` with a name for a module, if one is wanted.
pub open spec fn with_alias<W>(
    session: BackendSessionV<W>,
    name: Seq<char>,
    id: Seq<char>,
    wanted: bool,
) -> BackendSessionV<W> {
    if wanted {
        BackendSessionV {
            module_aliases: assoc_bound::<String, Seq<char>>(session.module_aliases, name, id),
            ..session
        }
    } else {
        session
    }
}

/// The syntax of a session with one more module.
pub open spec fn with_module<W>(
    session: BackendSessionV<W>,
    module: KoreModuleV,
    id: Seq<char>,
) -> KoreDefinitionV {
    KoreDefinitionV {
        modules: session.syntax.modules.push(
            KoreModuleV {
                name: id,
                sentences: imports_resolved(
                    session.module_aliases,
                    module.sentences,
                    Seq::empty(),
                    0,
                ),
                ..module
            },
        ),
        ..session.syntax
    }
}

/// The session `after`, which comes from `before`, with the default module standing for what it
/// stood for.
pub open spec fn default_kept<W>(
    before: BackendSessionV<W>,
    after: BackendSessionV<W>,
) -> BackendSessionV<W> {
    if settled(before) is Some && canonical(after, None) != canonical(before, None) {
        BackendSessionV { selected: settled(before), ..after }
    } else {
        after
    }
}

/// Whether `id` is that of the default module, and its definition is there.
pub open spec fn default_stands<W>(session: BackendSessionV<W>, id: Seq<char>) -> bool {
    canonical(session, None) == id && assoc(session.definitions, id) is Some
}

/// `session` with one more module and its definition. The definition of the default module stays
/// as it is.
pub open spec fn with_definition<W>(
    session: BackendSessionV<W>,
    module: KoreModuleV,
    id: Seq<char>,
    source: Seq<char>,
    definition: W,
) -> BackendSessionV<W> {
    BackendSessionV {
        syntax: with_module(session, module, id),
        definitions: if default_stands(session, id) {
            session.definitions
        } else {
            assoc_bound::<String, W>(session.definitions, id, definition)
        },
        added_sources: assoc_bound::<String, Seq<char>>(session.added_sources, id, source),
        ..session
    }
}

/// A session with a module added that has the identity `id`, and what adding it gives.
pub open spec fn added<W>(
    session: BackendSessionV<W>,
    outcome: Result<W, DefinitionErrorV>,
    source: Seq<char>,
    module: KoreModuleV,
    id: Seq<char>,
    name_as_id: bool,
) -> (Result<Seq<char>, SessionErrorV>, BackendSessionV<W>) {
    let sorts = declared_sorts(module.sentences, Seq::empty(), 0);
    let symbols = declared_symbols(module.sentences, Seq::empty(), 0);
    let known = assoc(session.module_aliases, module.name);
    if sorts.len() > 0 {
        (Err(SessionErrorV::IntroducesSorts(sorts)), session)
    } else if symbols.len() > 0 {
        (Err(SessionErrorV::IntroducesSymbols(symbols)), session)
    } else if name_as_id && known is Some && known->0 != id {
        (Err(SessionErrorV::DuplicateModuleName(module.name)), session)
    } else {
        match assoc(session.added_sources, id) {
            Some(existing) => if existing != source {
                (Err(SessionErrorV::DuplicateModuleName(id)), session)
            } else {
                (Ok(id), default_kept(session, with_alias(session, module.name, id, name_as_id)))
            },
            None => match outcome {
                Err(error) => (Err(SessionErrorV::Definition(error)), session),
                Ok(definition) => (
                    Ok(id),
                    default_kept(
                        session,
                        with_alias(
                            with_definition(session, module, id, source, definition),
                            module.name,
                            id,
                            name_as_id,
                        ),
                    ),
                ),
            },
        }
    }
}

fn find_declared_sorts(sentences: &Vec<KoreSentence>) -> (result: Vec<String>)
    ensures
        deep(result@) == declared_sorts(deep(sentences@), Seq::empty(), 0),
{
    let mut found: Vec<String> = Vec::new();
    let mut i: usize = 0;
    while i < sentences.len()
        invariant
            i <= sentences.len(),
            declared_sorts(deep(sentences@), Seq::empty(), 0) == declared_sorts(
                deep(sentences@),
                deep(found@),
                i as int,
            ),
        decreases sentences.len() - i,
    {
        assert(deep(sentences@)[i as int] == sentences[i as int]@);
        if let KoreSentence::SortDeclaration { name, .. } = &sentences[i] {
            found.push(name.duplicate());
        }
        i += 1;
    }
    found
}

fn find_declared_symbols(sentences: &Vec<KoreSentence>) -> (result: Vec<String>)
    ensures
        deep(result@) == declared_symbols(deep(sentences@), Seq::empty(), 0),
{
    let mut found: Vec<String> = Vec::new();
    let mut i: usize = 0;
    while i < sentences.len()
        invariant
            i <= sentences.len(),
            declared_symbols(deep(sentences@), Seq::empty(), 0) == declared_symbols(
                deep(sentences@),
                deep(found@),
                i as int,
            ),
        decreases sentences.len() - i,
    {
        assert(deep(sentences@)[i as int] == sentences[i as int]@);
        if let KoreSentence::SymbolDeclaration { name, .. } = &sentences[i] {
            found.push(name.duplicate());
        }
        i += 1;
    }
    found
}

fn resolve_imports(aliases: &Vec<(String, String)>, sentences: &Vec<KoreSentence>) -> (result: Vec<
    KoreSentence,
>)
    ensures
        deep(result@) == imports_resolved(deep(aliases@), deep(sentences@), Seq::empty(), 0),
{
    let mut found: Vec<KoreSentence> = Vec::new();
    let mut i: usize = 0;
    while i < sentences.len()
        invariant
            i <= sentences.len(),
            imports_resolved(deep(aliases@), deep(sentences@), Seq::empty(), 0)
                == imports_resolved(deep(aliases@), deep(sentences@), deep(found@), i as int),
        decreases sentences.len() - i,
    {
        assert(deep(sentences@)[i as int] == sentences[i as int]@);
        let sentence = match &sentences[i] {
            KoreSentence::Import { module, attributes } => {
                let target = match assoc_get(aliases, module) {
                    Some(id) => id.duplicate(),
                    None => module.duplicate(),
                };
                KoreSentence::Import { module: target, attributes: attributes.duplicate() }
            },
            _ => sentences[i].duplicate(),
        };
        found.push(sentence);
        i += 1;
    }
    found
}

fn has_module(modules: &Vec<KoreModule>, name: &String) -> (result: bool)
    ensures
        result == declares(deep(modules@), name@, 0),
{
    let mut i: usize = 0;
    while i < modules.len()
        invariant
            i <= modules.len(),
            declares(deep(modules@), name@, 0) == declares(deep(modules@), name@, i as int),
        decreases modules.len() - i,
    {
        assert(deep(modules@)[i as int] == modules[i as int]@);
        if modules[i].name == *name {
            return true;
        }
        i += 1;
    }
    false
}

impl<D: DeepView> BackendSession<D> {
    /// A session with no definitions yet. The default module may be added later.
    pub fn new(syntax: KoreDefinition, default_module: &str) -> (session: Self)
        ensures
            session@ == (BackendSessionV::<D::V> {
                syntax: syntax@,
                default_module: default_module@,
                definitions: Seq::empty(),
                added_sources: Seq::empty(),
                module_aliases: Seq::empty(),
                selected: None,
            }),
    {
        BackendSession {
            syntax,
            default_module: default_module.to_owned(),
            definitions: Vec::new(),
            added_sources: Vec::new(),
            module_aliases: Vec::new(),
            selected: None,
        }
    }

    /// The module that is used where none is given.
    pub fn default_module(&self) -> (module: &str)
        ensures
            module@ == self@.default_module,
    {
        self.default_module.as_str()
    }

    fn stands_alone(&self, name: &String) -> (result: bool)
        ensures
            result == stands_alone(self@, name@),
    {
        assoc_get(&self.definitions, name).is_some() || has_module(&self.syntax.modules, name)
    }

    fn settled(&self) -> (result: Option<String>)
        ensures
            result.deep_view() == settled(self@),
    {
        match &self.selected {
            Some(id) => Some(id.duplicate()),
            None => {
                if self.stands_alone(&self.default_module) {
                    return Some(self.default_module.duplicate());
                }
                match assoc_get(&self.module_aliases, &self.default_module) {
                    Some(id) => Some(id.duplicate()),
                    None => None,
                }
            },
        }
    }

    fn canonical_name(&self, module: Option<&str>) -> (name: String)
        ensures
            name@ == canonical(
                self@,
                match module {
                    Some(module) => Some(module@),
                    None => None,
                },
            ),
    {
        match module {
            Some(module) => {
                let requested = module.to_owned();
                match assoc_get(&self.module_aliases, &requested) {
                    Some(id) => id.duplicate(),
                    None => requested,
                }
            },
            None => match self.settled() {
                Some(id) => id,
                None => self.default_module.duplicate(),
            },
        }
    }

    /// Let the default module stand for `before`, where that was settled.
    fn keep_default(&mut self, before: Option<String>)
        ensures
            final(self)@ == (match before.deep_view() {
                Some(id) => if canonical(old(self)@, None) != id {
                    BackendSessionV { selected: Some(id), ..old(self)@ }
                } else {
                    old(self)@
                },
                None => old(self)@,
            }),
    {
        if let Some(id) = before {
            if self.canonical_name(None) != id {
                self.selected = Some(id);
            }
        }
    }

    /// The definition of a module, which is made when it is first asked for.
    pub fn definition<C: Compiler<D>>(&mut self, compiler: &C, module: Option<&str>) -> (result: Result<
        Arc<D>,
        SessionError,
    >)
        ensures
            ({
                let before = old(self)@;
                let name = canonical(
                    before,
                    match module {
                        Some(module) => Some(module@),
                        None => None,
                    },
                );
                match assoc(before.definitions, name) {
                    Some(definition) => result is Ok && result->Ok_0.deep_view() == definition
                        && final(self)@ == before,
                    None => match compiler.compiled(before.syntax, name) {
                        Ok(definition) => result is Ok && result->Ok_0.deep_view() == definition
                            && final(self)@ == (BackendSessionV {
                            definitions: assoc_bound::<String, D::V>(
                                before.definitions,
                                name,
                                definition,
                            ),
                            ..before
                        }),
                        Err(error) => result is Err && result->Err_0@ == SessionErrorV::Definition(
                            error,
                        ) && final(self)@ == before,
                    },
                }
            }),
    {
        let name = self.canonical_name(module);
        if let Some(definition) = assoc_get(&self.definitions, &name) {
            return Ok(share(definition));
        }
        match compiler.compile(&self.syntax, &name) {
            Ok(definition) => {
                let definition = Arc::new(definition);
                assoc_insert(&mut self.definitions, name, share(&definition));
                Ok(definition)
            },
            Err(error) => Err(SessionError::Definition(error)),
        }
    }

    /// Add a module, and return its identity. A module may hold aliases, axioms and claims, but no
    /// sorts or symbols. With `name_as_id`, its name selects it too.
    #[verifier::spinoff_prover]
    pub fn add_module<C: Compiler<D>>(
        &mut self,
        compiler: &C,
        source: &str,
        module: KoreModule,
        name_as_id: bool,
    ) -> (result: Result<String, SessionError>)
        ensures
            ({
                let id = identity_of_source(source@);
                (result_view(result), final(self)@) == added(
                    old(self)@,
                    compiler.compiled(with_module(old(self)@, module@, id), id),
                    source@,
                    module@,
                    id,
                    name_as_id,
                )
            }),
    {
        let sorts = find_declared_sorts(&module.sentences);
        if sorts.len() > 0 {
            return Err(SessionError::IntroducesSorts(sorts));
        }
        let symbols = find_declared_symbols(&module.sentences);
        if symbols.len() > 0 {
            return Err(SessionError::IntroducesSymbols(symbols));
        }
        let id = module_id(source);
        let KoreModule { name: source_name, sentences, attributes } = module;
        if name_as_id {
            if let Some(existing) = assoc_get(&self.module_aliases, &source_name) {
                if *existing != id {
                    return Err(SessionError::DuplicateModuleName(source_name));
                }
            }
        }
        let settled = self.settled();
        if let Some(existing) = assoc_get(&self.added_sources, &id) {
            if *existing != source.to_owned() {
                return Err(SessionError::DuplicateModuleName(id));
            }
            if name_as_id {
                assoc_insert(&mut self.module_aliases, source_name, id.duplicate());
            }
            self.keep_default(settled);
            return Ok(id);
        }
        let default_stands: bool = self.canonical_name(None) == id && assoc_get(
            &self.definitions,
            &id,
        ).is_some();
        let mut syntax = self.syntax.duplicate();
        syntax.modules.push(
            KoreModule {
                name: id.duplicate(),
                sentences: resolve_imports(&self.module_aliases, &sentences),
                attributes,
            },
        );
        let definition = match compiler.compile(&syntax, &id) {
            Ok(definition) => definition,
            Err(error) => {
                return Err(SessionError::Definition(error));
            },
        };
        self.syntax = syntax;
        if !default_stands {
            assoc_insert(&mut self.definitions, id.duplicate(), Arc::new(definition));
        }
        assoc_insert(&mut self.added_sources, id.duplicate(), source.to_owned());
        if name_as_id {
            assoc_insert(&mut self.module_aliases, source_name, id.duplicate());
        }
        self.keep_default(settled);
        Ok(id)
    }
}

// ---------------------------------------------------------------------------------------------
// Laws
// ---------------------------------------------------------------------------------------------
/// To add a module again changes nothing and gives the same identity, whatever a compiler would
/// say of it by then.
pub proof fn law_adding_again<W>(
    session: BackendSessionV<W>,
    outcome: Result<W, DefinitionErrorV>,
    later: Result<W, DefinitionErrorV>,
    source: Seq<char>,
    module: KoreModuleV,
    id: Seq<char>,
    name_as_id: bool,
)
    requires
        added(session, outcome, source, module, id, name_as_id).0 is Ok,
    ensures
        ({
            let after = added(session, outcome, source, module, id, name_as_id);
            added(after.1, later, source, module, id, name_as_id) == (
                Ok::<Seq<char>, SessionErrorV>(id),
                after.1,
            )
        }),
{
    let after = added(session, outcome, source, module, id, name_as_id).1;
    law_bound::<String, Seq<char>>(session.added_sources, id, source, id);
    law_bound::<String, Seq<char>>(session.module_aliases, module.name, id, module.name);
    law_bound_again::<String, Seq<char>>(session.module_aliases, module.name, id);
    assert(assoc(after.added_sources, id) == Some(source));
}

/// A module that is refused leaves the session as it is.
pub proof fn law_refusal_changes_nothing<W>(
    session: BackendSessionV<W>,
    outcome: Result<W, DefinitionErrorV>,
    source: Seq<char>,
    module: KoreModuleV,
    id: Seq<char>,
    name_as_id: bool,
)
    requires
        added(session, outcome, source, module, id, name_as_id).0 is Err,
    ensures
        added(session, outcome, source, module, id, name_as_id).1 == session,
{
}

proof fn lemma_declares_push(
    modules: Seq<KoreModuleV>,
    module: KoreModuleV,
    name: Seq<char>,
    from: int,
)
    requires
        0 <= from <= modules.len(),
    ensures
        declares(modules.push(module), name, from) == (declares(modules, name, from) || module.name
            == name),
    decreases modules.len() - from,
{
    if from < modules.len() {
        lemma_declares_push(modules, module, name, from + 1);
    } else {
        assert(!declares(modules.push(module), name, from + 1));
    }
}

/// To add a module keeps all other definitions, what all other names stand for, and the default
/// module: what that stands for, and so its definition, stays the same once it is there. To add it
/// again keeps its own definition too.
pub proof fn law_adding_keeps_others<W>(
    session: BackendSessionV<W>,
    outcome: Result<W, DefinitionErrorV>,
    source: Seq<char>,
    module: KoreModuleV,
    id: Seq<char>,
    name_as_id: bool,
    other: Seq<char>,
)
    ensures
        ({
            let after = added(session, outcome, source, module, id, name_as_id).1;
            &&& after.default_module == session.default_module
            &&& other != id || assoc(session.added_sources, id) is Some ==> assoc(
                after.definitions,
                other,
            ) == assoc(session.definitions, other)
            &&& other != module.name ==> canonical(after, Some(other)) == canonical(
                session,
                Some(other),
            )
            &&& settled(session) is Some ==> canonical(after, None) == canonical(session, None)
            &&& assoc(session.definitions, canonical(session, None)) is Some ==> canonical(
                after,
                None,
            ) == canonical(session, None) && assoc(after.definitions, canonical(after, None))
                == assoc(session.definitions, canonical(session, None))
        }),
{
    let default = session.default_module;
    match outcome {
        Ok(definition) => {
            law_bound::<String, W>(session.definitions, id, definition, other);
            law_bound::<String, W>(session.definitions, id, definition, default);
            law_bound::<String, W>(
                session.definitions,
                id,
                definition,
                canonical(session, None),
            );
        },
        _ => {},
    }
    law_bound::<String, Seq<char>>(session.module_aliases, module.name, id, other);
    law_bound::<String, Seq<char>>(session.module_aliases, module.name, id, default);
    lemma_declares_push(
        session.syntax.modules,
        with_module(session, module, id).modules.last(),
        default,
        0,
    );
}

/// A definition that was made for a module is what the module stands for from then on.
pub proof fn law_definition_is_kept<W>(
    session: BackendSessionV<W>,
    module: Option<Seq<char>>,
    definition: W,
)
    ensures
        ({
            let name = canonical(session, module);
            let after = BackendSessionV {
                definitions: assoc_bound::<String, W>(session.definitions, name, definition),
                ..session
            };
            canonical(after, module) == name && assoc(after.definitions, name) == Some(definition)
        }),
{
    let name = canonical(session, module);
    law_bound::<String, W>(session.definitions, name, definition, name);
    law_bound::<String, W>(session.definitions, name, definition, session.default_module);
}

/// A module that was added under its name is selected by it, and its definition is there, unless
/// the default module has its identity and keeps its own.
pub proof fn law_added_is_selected<W>(
    session: BackendSessionV<W>,
    outcome: Result<W, DefinitionErrorV>,
    source: Seq<char>,
    module: KoreModuleV,
    id: Seq<char>,
)
    requires
        added(session, outcome, source, module, id, true).0 is Ok,
    ensures
        canonical(added(session, outcome, source, module, id, true).1, Some(module.name)) == id,
        assoc(session.added_sources, id) is None && !default_stands(session, id) ==> assoc(
            added(session, outcome, source, module, id, true).1.definitions,
            id,
        ) == Some(outcome->Ok_0),
{
    match outcome {
        Ok(definition) => {
            law_bound::<String, W>(session.definitions, id, definition, id);
        },
        _ => {},
    }
    law_bound::<String, Seq<char>>(session.module_aliases, module.name, id, module.name);
}

} // verus!
