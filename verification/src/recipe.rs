//! Construction contracts: for a capability token, the tokens its
//! construction needs.

use vstd::prelude::*;

verus! {

/// The construction contract of one token.
pub struct Recipe {
    pub token: u64,
    pub needs: Vec<u64>,
}

/// The construction contracts known to an assembly, in declaration order.
/// Where a token was declared more than once, its first recipe counts.
pub struct Registry {
    pub recipes: Vec<Recipe>,
}

impl View for Registry {
    type V = Seq<(u64, Seq<u64>)>;

    open spec fn view(&self) -> Seq<(u64, Seq<u64>)> {
        Seq::new(self.recipes.len() as nat, |i: int| (self.recipes[i].token, self.recipes[i].needs@))
    }
}

/// The first position at or after `from` whose recipe is for `token`.
pub open spec fn recipe_index(recipes: Seq<(u64, Seq<u64>)>, token: u64, from: int) -> Option<int>
    decreases recipes.len() - from,
{
    if from < 0 || from >= recipes.len() {
        None
    } else if recipes[from].0 == token {
        Some(from)
    } else {
        recipe_index(recipes, token, from + 1)
    }
}

impl Registry {
    pub fn new() -> (registry: Registry)
        ensures
            registry@ == Seq::<(u64, Seq<u64>)>::empty(),
    {
        let registry = Registry { recipes: Vec::new() };
        assert(registry@ =~= Seq::<(u64, Seq<u64>)>::empty());
        registry
    }

    /// Adds the contract that constructing `token` needs `needs`, in that
    /// order.
    pub fn declare(self, token: u64, needs: Vec<u64>) -> (registry: Registry)
        ensures
            registry@ == self@.push((token, needs@)),
    {
        let mut recipes = self.recipes;
        recipes.push(Recipe { token, needs });
        let registry = Registry { recipes };
        assert(registry@ =~= self@.push((token, needs@)));
        registry
    }

    /// The position of the recipe that counts for `token`, if it has one.
    pub fn find(&self, token: u64) -> (found: Option<usize>)
        ensures
            match found {
                Some(k) => recipe_index(self@, token, 0) == Some(k as int) && k < self.recipes.len(),
                None => recipe_index(self@, token, 0) is None,
            },
    {
        let mut i: usize = 0;
        while i < self.recipes.len()
            invariant
                i <= self.recipes.len(),
                recipe_index(self@, token, 0) == recipe_index(self@, token, i as int),
            decreases self.recipes.len() - i,
        {
            if self.recipes[i].token == token {
                return Some(i);
            }
            i = i + 1;
        }
        None
    }
}

} // verus!
