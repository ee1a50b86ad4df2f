use vstd::prelude::*;

verus! {

/// Upstream DoH endpoint used when no resolver URLs are configured.
pub const DEFAULT_RESOLVER: &'static str = "https://dns.quad9.net/dns-query";

/// An ordered pool of upstream resolver URLs with a round-robin cursor.
///
/// The pool is never empty: construction falls back to a single default
/// URL when no URLs are configured. The cursor always indexes a valid
/// position, so a pool of length 1 always returns the same URL.
pub struct Resolvers {
    resolvers: Vec<String>,
    current_index: usize,
}

impl Resolvers {
    /// The ordered URLs of the pool.
    pub closed spec fn urls(self) -> Seq<Seq<char>> {
        self.resolvers@.map_values(|s: String| s@)
    }

    /// The rotation cursor: the index of the URL the next call returns.
    pub closed spec fn cursor(self) -> int {
        self.current_index as int
    }

    /// Well-formedness: the pool is non-empty and the cursor is in range.
    pub closed spec fn wf(self) -> bool {
        &&& self.resolvers.len() > 0
        &&& self.current_index < self.resolvers.len()
    }

    /// Builds a pool from the configured URLs, falling back to the
    /// default resolver when the list is empty.
    pub fn new(resolvers: Vec<String>) -> (r: Self)
        ensures
            r.wf(),
            r.cursor() == 0,
            resolvers@.len() > 0 ==> r.urls() =~= resolvers@.map_values(|s: String| s@),
            resolvers@.len() == 0 ==> r.urls() =~= seq![DEFAULT_RESOLVER@],
    {
        let mut rs = resolvers;
        if rs.len() == 0 {
            rs.push(String::from_str(DEFAULT_RESOLVER));
        }
        Resolvers { resolvers: rs, current_index: 0 }
    }

    /// Returns the URL at the cursor and advances the cursor by one,
    /// wrapping to zero after the last index.
    pub fn get_url(&mut self) -> (r: String)
        requires
            old(self).wf(),
        ensures
            final(self).wf(),
            final(self).urls() == old(self).urls(),
            r@ == old(self).urls()[old(self).cursor()],
            final(self).cursor() == (old(self).cursor() + 1) % (old(self).urls().len() as int),
    {
        let url = self.resolvers[self.current_index].clone();
        if self.current_index + 1 == self.resolvers.len() {
            self.current_index = 0;
        } else {
            self.current_index = self.current_index + 1;
        }
        proof {
            let n = old(self).urls().len() as int;
            let c = old(self).cursor();
            if c + 1 < n {
                assert((c + 1) % n == c + 1) by (nonlinear_arith)
                    requires 0 <= c + 1 < n;
            } else {
                assert(n % n == 0) by (nonlinear_arith)
                    requires n > 0;
            }
        }
        url
    }

    /// A pool of size 1 always hands out the same URL: its cursor can
    /// only ever sit at position zero.
    pub proof fn lemma_single_url_constant(self)
        requires
            self.wf(),
            self.urls().len() == 1,
        ensures
            self.cursor() == 0,
    {
    }
}

} // verus!
