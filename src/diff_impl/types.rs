//! Expected and found symbols and the drift between them.
use vstd::prelude::*;

verus! {

/// The kind of a declared symbol that drift detection looks for.
#[derive(Debug, Clone, Copy, PartialEq, Eq, Structural)]
pub enum SymbolKind {
    Func,
    Schema,
}

/// A symbol that the declarations say should exist in code.
#[derive(Debug, Clone)]
pub struct ExpectedSymbol {
    /// The declared name.
    pub surv_name: String,
    /// The name to look for in code instead, when given.
    pub impl_bind: Option<String>,
    /// The language it may be written in: `ts`, `rust`, `either`, or any when absent.
    pub impl_lang: Option<String>,
    /// The container path it lives under, when given.
    pub impl_path: Option<String>,
    pub kind: SymbolKind,
}

impl ExpectedSymbol {
    /// The name to search for in code: the binding when given, else the declared name.
    pub fn search_name(&self) -> (r: &str)
        ensures
            r@ == match self.impl_bind {
                Some(b) => b@,
                None => self.surv_name@,
            },
    {
        match &self.impl_bind {
            Some(b) => b.as_str(),
            None => self.surv_name.as_str(),
        }
    }

    /// Whether the symbol may be written in `lang`: always without a constraint,
    /// else when the constraint is `lang` or `either`.
    pub fn matches_language(&self, lang: &str) -> (r: bool)
        ensures
            r == match self.impl_lang {
                None => true,
                Some(c) => c@ == lang@ || c@ == "either"@,
            },
    {
        match &self.impl_lang {
            None => true,
            Some(c) => crate::text::same_text(c.as_str(), lang) || crate::text::same_text(
                c.as_str(),
                "either",
            ),
        }
    }
}

/// Line and column range of a symbol in a file.
#[derive(Debug, Clone, Copy)]
pub struct SymbolRange {
    pub start_line: u32,
    pub start_char: u32,
    pub end_line: u32,
    pub end_char: u32,
}

/// A symbol found in code.
#[derive(Debug, Clone)]
pub struct FoundSymbol {
    pub name: String,
    /// The language server's kind string (`Function`, `Struct`, ...).
    pub kind: String,
    pub uri: String,
    pub range: SymbolRange,
    pub container_name: Option<String>,
    pub detail: Option<String>,
}

/// One drift between declarations and code.
#[derive(Debug)]
pub enum DriftKind {
    /// Declared but not found.
    Missing { expected: ExpectedSymbol },
    /// Found but not declared.
    Extra { found: FoundSymbol },
    /// Declared, with several candidates in code.
    Ambiguous { expected: ExpectedSymbol, candidates: Vec<FoundSymbol> },
}

/// The outcome of comparing declarations with code.
#[derive(Debug)]
pub struct DiffResult {
    pub missing: Vec<ExpectedSymbol>,
    pub extra: Vec<FoundSymbol>,
    pub ambiguous: Vec<(ExpectedSymbol, Vec<FoundSymbol>)>,
    /// Number of declared symbols matched exactly once.
    pub matched: usize,
}

impl DiffResult {
    /// Some symbol is missing, extra or ambiguous.
    pub fn has_issues(&self) -> (r: bool)
        ensures
            r == (self.missing@.len() > 0 || self.extra@.len() > 0 || self.ambiguous@.len() > 0),
    {
        self.missing.len() > 0 || self.extra.len() > 0 || self.ambiguous.len() > 0
    }

    /// Declared symbols looked for: missing, ambiguous and matched ones.
    pub fn total_expected(&self) -> (r: usize)
        requires
            self.missing@.len() + self.ambiguous@.len() + self.matched <= usize::MAX,
        ensures
            r == self.missing@.len() + self.ambiguous@.len() + self.matched,
    {
        self.missing.len() + self.ambiguous.len() + self.matched
    }

    /// Symbols found in code: extra and matched ones.
    pub fn total_found(&self) -> (r: usize)
        requires
            self.extra@.len() + self.matched <= usize::MAX,
        ensures
            r == self.extra@.len() + self.matched,
    {
        self.extra.len() + self.matched
    }
}

impl Default for DiffResult {
    fn default() -> (r: DiffResult)
        ensures
            r.missing@.len() == 0,
            r.extra@.len() == 0,
            r.ambiguous@.len() == 0,
            r.matched == 0,
    {
        DiffResult { missing: Vec::new(), extra: Vec::new(), ambiguous: Vec::new(), matched: 0 }
    }
}

} // verus!
