use vstd::prelude::*;

pub mod args;
pub mod assembler;
pub mod error;
pub mod lexer;
pub mod opcodes;
pub mod operands;
pub mod scanner;

verus! {

/// Which level of optimizations to use; the levels `High` and `Size` may be
/// unstable.
#[derive(Clone, Copy, Debug, PartialEq, Eq, Structural)]
pub enum OptimizationLevel {
    /// `-O0`
    Off,
    /// `-O1`
    Low,
    /// `-O2`
    Medium,
    /// `-O3`
    High,
    /// `-Oz`
    Size,
}

/// Flags that enable warnings during compilation.
#[derive(Clone, Copy, Debug, PartialEq, Eq, Structural)]
pub enum WarningFlags {
    /// Every warning.
    All,
    /// No warnings.
    Off,
}

/// The default output file.
pub const DEFAULT_TARGET: &'static str = "a.rbf";

/// Compiler options.
#[derive(Debug)]
pub struct Options {
    /// File the compiled result is written to; several inputs are combined
    /// into this one file.
    target: String,
    /// Level of optimization.
    optimization: OptimizationLevel,
    /// Warnings enabled during compilation; `All` enables every warning.
    warnings: Vec<WarningFlags>,
}

impl Options {
    pub closed spec fn spec_target(&self) -> Seq<char> {
        self.target@
    }

    pub closed spec fn spec_optimization(&self) -> OptimizationLevel {
        self.optimization
    }

    pub closed spec fn spec_warnings(&self) -> Seq<WarningFlags> {
        self.warnings@
    }

    /// The default options: output to `a.rbf`, the most stable optimization
    /// level, and the basic warnings.
    pub fn new() -> (r: Options)
        ensures
            r.spec_target() == DEFAULT_TARGET@,
            r.spec_optimization() == OptimizationLevel::Low,
            r.spec_warnings() == seq![WarningFlags::All],
    {
        let options = Options {
            target: String::from_str(DEFAULT_TARGET),
            optimization: OptimizationLevel::Low,
            warnings: vec![WarningFlags::All],
        };
        assert(options.warnings@ =~= seq![WarningFlags::All]);
        options
    }

    pub fn target(&self) -> (r: &str)
        ensures
            r@ == self.spec_target(),
    {
        self.target.as_str()
    }

    pub fn optimization(&self) -> (r: OptimizationLevel)
        ensures
            r == self.spec_optimization(),
    {
        self.optimization
    }

    pub fn warnings(&self) -> (r: &Vec<WarningFlags>)
        ensures
            r@ == self.spec_warnings(),
    {
        &self.warnings
    }

    pub fn set_target(&mut self, target: String)
        ensures
            final(self).spec_target() == target@,
            final(self).spec_optimization() == old(self).spec_optimization(),
            final(self).spec_warnings() == old(self).spec_warnings(),
    {
        self.target = target;
    }

    pub fn set_optimization(&mut self, level: OptimizationLevel)
        ensures
            final(self).spec_target() == old(self).spec_target(),
            final(self).spec_optimization() == level,
            final(self).spec_warnings() == old(self).spec_warnings(),
    {
        self.optimization = level;
    }

    pub fn add_warning(&mut self, flag: WarningFlags)
        ensures
            final(self).spec_target() == old(self).spec_target(),
            final(self).spec_optimization() == old(self).spec_optimization(),
            final(self).spec_warnings() == old(self).spec_warnings().push(flag),
    {
        self.warnings.push(flag);
    }
}

} // verus!
