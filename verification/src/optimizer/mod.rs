//! Expression optimization: the parse cache, static analysis and rewrites
//! of the tree, and the optimizer that runs them in turn.
pub mod ast;
pub mod cache;
pub mod static_analysis;

use vstd::prelude::*;
use crate::parser::ast::{Expr, ExprView};
use crate::parser::expression::{Parser, parse_expr};
use crate::error::DataCodeError;
use self::ast::{ASTOptimizer, NumberArithmetic, optimized, size};
use self::cache::{ParseCache, lookup, cache_key, cache_insert};
use self::static_analysis::{StaticAnalyzer, warnings_of};

verus! {

/// There is room in a count of rewrites for the rewrites of what `text`
/// parses to: the count may grow by up to twice the number of its nodes.
pub open spec fn room_for(count: nat, text: Seq<char>) -> bool {
    match parse_expr(text) {
        Some((e, _)) => count + 2 * size(e) <= usize::MAX,
        None => true,
    }
}

/// The optimizer: static analysis and AST rewrites, with a cache of parsed
/// and optimized expressions.
pub struct Optimizer<N: NumberArithmetic> {
    ast_optimizer: ASTOptimizer<N>,
    parse_cache: ParseCache,
    static_analyzer: StaticAnalyzer,
}

impl<N: NumberArithmetic> Optimizer<N> {
    /// The number of AST rewrites made so far.
    pub closed spec fn rewrites(&self) -> nat {
        self.ast_optimizer.count()
    }

    /// The cache.
    pub closed spec fn cache(&self) -> ParseCache {
        self.parse_cache
    }

    /// The warnings of the static analyses made so far.
    pub closed spec fn warnings(&self) -> Seq<Seq<char>> {
        self.static_analyzer.warning_texts()
    }

    /// The count of errors of the static analyzer.
    pub closed spec fn analysis_errors(&self) -> nat {
        self.static_analyzer.errors()
    }

    /// A fresh optimizer: no rewrite made, an empty cache of capacity 1000,
    /// no warning; numbers are computed with `numbers`.
    pub fn new(numbers: N) -> (r: Self)
        ensures
            r.rewrites() == 0,
            r.cache().wf(),
            r.cache().entries() == Seq::<(Seq<char>, ExprView)>::empty(),
            r.cache().hits() == 0,
            r.cache().misses() == 0,
            r.cache().capacity() == 1000,
            r.warnings() == Seq::<Seq<char>>::empty(),
            r.analysis_errors() == 0,
    {
        Optimizer {
            ast_optimizer: ASTOptimizer::new(numbers),
            parse_cache: ParseCache::new(),
            static_analyzer: StaticAnalyzer::new(),
        }
    }

    /// Analyzes the expression (adding its warnings) and then rewrites it
    /// (see `optimized`); always succeeds.
    pub fn optimize(&mut self, expr: Expr) -> (r: Result<Expr, DataCodeError>)
        requires
            old(self).rewrites() + 2 * size(expr@) <= usize::MAX,
        ensures
            final(self).warnings() == old(self).warnings() + warnings_of(expr@, Map::empty()),
            final(self).analysis_errors() == old(self).analysis_errors(),
            final(self).cache() == old(self).cache(),
            r matches Ok(x) && final(self).rewrites() >= old(self).rewrites()
                && optimized(expr@, x@, (final(self).rewrites() - old(self).rewrites()) as nat),
    {
        let _analysis = self.static_analyzer.analyze(&expr);
        self.ast_optimizer.optimize(expr)
    }

    /// The optimized expression for a text: from the cache when it is there
    /// (a hit); otherwise (a miss) parsed, optimized and stored, or the
    /// syntax error of the parse.
    pub fn optimize_expression(&mut self, expr_str: &str) -> (r: Result<Expr, DataCodeError>)
        requires
            old(self).cache().wf(),
            old(self).cache().hits() < usize::MAX,
            old(self).cache().misses() < usize::MAX,
            room_for(old(self).rewrites(), expr_str@),
        ensures
            final(self).cache().wf(),
            final(self).cache().capacity() == old(self).cache().capacity(),
            final(self).analysis_errors() == old(self).analysis_errors(),
            match lookup(old(self).cache().entries(), cache_key(expr_str@)) {
                Some(e) => r matches Ok(x) && x@ == e
                    && final(self).cache().hits() == old(self).cache().hits() + 1
                    && final(self).cache().misses() == old(self).cache().misses()
                    && final(self).cache().entries() == old(self).cache().entries()
                    && final(self).rewrites() == old(self).rewrites()
                    && final(self).warnings() == old(self).warnings(),
                None => final(self).cache().hits() == old(self).cache().hits()
                    && final(self).cache().misses() == old(self).cache().misses() + 1
                    && match parse_expr(expr_str@) {
                        None => r is Err
                            && final(self).cache().entries() == old(self).cache().entries()
                            && final(self).rewrites() == old(self).rewrites()
                            && final(self).warnings() == old(self).warnings(),
                        Some((p, _)) => r matches Ok(x)
                            && final(self).rewrites() >= old(self).rewrites()
                            && optimized(p, x@, (final(self).rewrites() - old(self).rewrites()) as nat)
                            && final(self).cache().entries() == cache_insert(old(self).cache().entries(),
                                old(self).cache().capacity(), cache_key(expr_str@), x@)
                            && final(self).warnings() == old(self).warnings() + warnings_of(p, Map::empty()),
                    },
            },
    {
        if let Some(cached) = self.parse_cache.get(expr_str) {
            return Ok((*cached).copy());
        }
        let mut parser = Parser::new(expr_str);
        let expr = match parser.parse_expression() {
            Ok(e) => e,
            Err(err) => return Err(err),
        };
        let optimized_expr = match self.optimize(expr) {
            Ok(e) => e,
            Err(err) => return Err(err),
        };
        self.parse_cache.insert(expr_str, optimized_expr.copy());
        Ok(optimized_expr)
    }

    /// The cache, to be changed in place; nothing else changes.
    pub fn parse_cache(&mut self) -> (r: &mut ParseCache)
        ensures
            *r == old(self).cache(),
            final(self).cache() == *final(r),
            final(self).rewrites() == old(self).rewrites(),
            final(self).warnings() == old(self).warnings(),
            final(self).analysis_errors() == old(self).analysis_errors(),
    {
        &mut self.parse_cache
    }

    /// The counts of rewrites, cache hits and misses and analysis errors.
    pub fn get_stats(&self) -> (r: OptimizerStats)
        ensures
            r.ast_optimizations == self.rewrites(),
            r.cache_hits == self.cache().hits(),
            r.cache_misses == self.cache().misses(),
            r.static_analysis_errors == self.analysis_errors(),
    {
        OptimizerStats {
            ast_optimizations: self.ast_optimizer.get_optimization_count(),
            cache_hits: self.parse_cache.get_hit_count(),
            cache_misses: self.parse_cache.get_miss_count(),
            static_analysis_errors: self.static_analyzer.get_error_count(),
        }
    }
}

/// The counts of an optimizer's work.
#[derive(Debug, Clone)]
pub struct OptimizerStats {
    pub ast_optimizations: usize,
    pub cache_hits: usize,
    pub cache_misses: usize,
    pub static_analysis_errors: usize,
}

impl OptimizerStats {
    /// Whether the optimizer pays off: more than half of the cache lookups
    /// hit, and at least one rewrite was made.
    pub fn is_effective(&self) -> (r: bool)
        ensures
            r == (2 * self.cache_hits > self.cache_hits + self.cache_misses && self.ast_optimizations > 0),
    {
        let hits = self.cache_hits as u128;
        let total = hits + self.cache_misses as u128;
        2 * hits > total && self.ast_optimizations > 0
    }
}

} // verus!
