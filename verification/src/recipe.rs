//! The recipe record and its cleaning pass, plus the HTML escaping used when
//! a record is prepared for presentation.

use vstd::prelude::*;
use crate::text::chars_to_string;
use crate::text::trim;
use crate::text::trimmed;
use vstd::string::StrSliceExecFns;

verus! {

/// One ingredient line of a recipe.
#[derive(Debug, Clone, PartialEq, Eq)]
pub struct Ingredient {
    pub name: String,
    pub amount: String,
    pub unit: Option<String>,
}

/// A titled group of ingredients.
#[derive(Debug, Clone, PartialEq, Eq)]
pub struct IngredientsSection {
    pub heading: String,
    pub ingredients: Vec<Ingredient>,
}

/// A recipe as entered and stored; its id is derived from `name`.
#[derive(Debug, Clone, PartialEq, Eq)]
pub struct RawRecipe {
    pub name: String,
    pub description: String,
    pub ingredients_sections: Vec<IngredientsSection>,
    pub instructions: String,
    pub source: String,
    pub categories: Vec<String>,
}

/// `s` with every comma replaced by a dot, as amounts are normalized.
pub open spec fn comma_to_dot(s: Seq<char>) -> Seq<char> {
    s.map_values(|c: char| if c == ',' { '.' } else { c })
}

/// Replaces every comma by a dot.
fn replace_commas(s: &str) -> (r: String)
    ensures
        r@ == comma_to_dot(s@),
{
    let n = s.unicode_len();
    let mut out: Vec<char> = Vec::new();
    let mut i: usize = 0;
    while i < n
        invariant
            i <= n,
            n == s@.len(),
            out@.len() == i,
            forall|j: int| 0 <= j < i ==> out@[j] == (if s@[j] == ',' { '.' } else { s@[j] }),
        decreases n - i,
    {
        let c = s.get_char(i);
        if c == ',' {
            out.push('.');
        } else {
            out.push(c);
        }
        i = i + 1;
    }
    proof {
        assert(out@ =~= comma_to_dot(s@));
    }
    chars_to_string(&out)
}

/// How a cleaned ingredient relates to the one it was cleaned from.
pub open spec fn ingredient_cleaned(new: Ingredient, prev: Ingredient) -> bool {
    &&& new.name@ == trimmed(prev.name@)
    &&& new.amount@ == comma_to_dot(trimmed(prev.amount@))
    &&& match (new.unit, prev.unit) {
        (Option::None, Option::None) => true,
        (Option::Some(n), Option::Some(p)) => n@ == trimmed(p@),
        _ => false,
    }
}

/// How a cleaned ingredients section relates to the one it was cleaned from.
pub open spec fn section_cleaned(new: IngredientsSection, prev: IngredientsSection) -> bool {
    &&& new.heading@ == trimmed(prev.heading@)
    &&& new.ingredients@.len() == prev.ingredients@.len()
    &&& forall|i: int|
        0 <= i < prev.ingredients@.len() ==> ingredient_cleaned(
            #[trigger] new.ingredients@[i],
            prev.ingredients@[i],
        )
}

/// How a cleaned recipe relates to the one it was cleaned from: titles,
/// headings, ingredient fields and categories are trimmed, amounts have
/// commas replaced by dots, and the free-text fields stay as entered.
pub open spec fn recipe_cleaned(new: RawRecipe, prev: RawRecipe) -> bool {
    &&& new.name@ == trimmed(prev.name@)
    &&& new.description@ == trimmed(prev.description@)
    &&& new.instructions == prev.instructions
    &&& new.source == prev.source
    &&& new.ingredients_sections@.len() == prev.ingredients_sections@.len()
    &&& forall|i: int|
        0 <= i < prev.ingredients_sections@.len() ==> section_cleaned(
            #[trigger] new.ingredients_sections@[i],
            prev.ingredients_sections@[i],
        )
    &&& new.categories@.len() == prev.categories@.len()
    &&& forall|i: int|
        0 <= i < prev.categories@.len() ==> (#[trigger] new.categories@[i])@ == trimmed(
            prev.categories@[i]@,
        )
}

/// Trims a single text field in place.
pub fn clean(s: &mut String)
    ensures
        final(s)@ == trimmed(old(s)@),
{
    let t = trim(s.as_str());
    *s = t;
}

impl RawRecipe {
    /// Normalizes a freshly submitted recipe before it is stored: trims the
    /// texts that act as keys or labels and normalizes amounts, leaving the
    /// free-text body untouched.
    pub fn clean(&mut self)
        ensures
            recipe_cleaned(*final(self), *old(self)),
    {
        clean(&mut self.name);
        clean(&mut self.description);
        let n = self.ingredients_sections.len();
        let mut new_sections: Vec<IngredientsSection> = Vec::new();
        let mut si: usize = 0;
        while si < n
            invariant
                si <= n,
                n == self.ingredients_sections@.len(),
                new_sections@.len() == si,
                forall|j: int|
                    0 <= j < si ==> section_cleaned(
                        #[trigger] new_sections@[j],
                        self.ingredients_sections@[j],
                    ),
            decreases n - si,
        {
            let heading = trim(self.ingredients_sections[si].heading.as_str());
            let m = self.ingredients_sections[si].ingredients.len();
            let mut new_ingredients: Vec<Ingredient> = Vec::new();
            let mut ii: usize = 0;
            while ii < m
                invariant
                    ii <= m,
                    si < n,
                    n == self.ingredients_sections@.len(),
                    m == self.ingredients_sections@[si as int].ingredients@.len(),
                    new_ingredients@.len() == ii,
                    forall|j: int|
                        0 <= j < ii ==> ingredient_cleaned(
                            #[trigger] new_ingredients@[j],
                            self.ingredients_sections@[si as int].ingredients@[j],
                        ),
                decreases m - ii,
            {
                let ing = &self.ingredients_sections[si].ingredients[ii];
                let unit = match &ing.unit {
                    Option::Some(u) => Option::Some(trim(u.as_str())),
                    Option::None => Option::None,
                };
                let trimmed_amount = trim(ing.amount.as_str());
                new_ingredients.push(
                    Ingredient {
                        name: trim(ing.name.as_str()),
                        amount: replace_commas(trimmed_amount.as_str()),
                        unit,
                    },
                );
                ii = ii + 1;
            }
            new_sections.push(IngredientsSection { heading, ingredients: new_ingredients });
            si = si + 1;
        }
        self.ingredients_sections = new_sections;
        let cn = self.categories.len();
        let mut new_categories: Vec<String> = Vec::new();
        let mut ci: usize = 0;
        while ci < cn
            invariant
                ci <= cn,
                cn == self.categories@.len(),
                new_categories@.len() == ci,
                forall|j: int|
                    0 <= j < ci ==> (#[trigger] new_categories@[j])@ == trimmed(
                        self.categories@[j]@,
                    ),
            decreases cn - ci,
        {
            new_categories.push(trim(self.categories[ci].as_str()));
            ci = ci + 1;
        }
        self.categories = new_categories;
    }
}

/// What one character contributes to the HTML-escaped form of a text.
pub open spec fn escape_char(c: char) -> Seq<char> {
    if c == '&' {
        seq!['&', 'a', 'm', 'p', ';']
    } else if c == '<' {
        seq!['&', 'l', 't', ';']
    } else if c == '>' {
        seq!['&', 'g', 't', ';']
    } else if c == '"' {
        seq!['&', 'q', 'u', 'o', 't', ';']
    } else if c == '\'' {
        seq!['&', '#', '3', '9', ';']
    } else {
        seq![c]
    }
}

/// The HTML-escaped form of `s`: the five markup-significant characters
/// become entities, everything else passes through.
pub open spec fn escaped_html(s: Seq<char>) -> Seq<char>
    decreases s.len(),
{
    if s.len() == 0 {
        Seq::empty()
    } else {
        escaped_html(s.drop_last()) + escape_char(s.last())
    }
}

/// Escapes a text for embedding into HTML markup.
pub fn bake_string(s: &str) -> (r: String)
    ensures
        r@ == escaped_html(s@),
{
    let n = s.unicode_len();
    let mut out: Vec<char> = Vec::new();
    let mut i: usize = 0;
    proof {
        assert(s@.subrange(0, 0) =~= Seq::<char>::empty());
    }
    while i < n
        invariant
            i <= n,
            n == s@.len(),
            out@ == escaped_html(s@.subrange(0, i as int)),
        decreases n - i,
    {
        let ghost prefix = out@;
        let c = s.get_char(i);
        if c == '&' {
            out.push('&');
            out.push('a');
            out.push('m');
            out.push('p');
            out.push(';');
        } else if c == '<' {
            out.push('&');
            out.push('l');
            out.push('t');
            out.push(';');
        } else if c == '>' {
            out.push('&');
            out.push('g');
            out.push('t');
            out.push(';');
        } else if c == '"' {
            out.push('&');
            out.push('q');
            out.push('u');
            out.push('o');
            out.push('t');
            out.push(';');
        } else if c == '\'' {
            out.push('&');
            out.push('#');
            out.push('3');
            out.push('9');
            out.push(';');
        } else {
            out.push(c);
        }
        proof {
            assert(out@ =~= prefix + escape_char(c));
            assert(s@.subrange(0, i as int + 1).drop_last() =~= s@.subrange(0, i as int));
            assert(s@.subrange(0, i as int + 1).last() == c);
        }
        i = i + 1;
    }
    proof {
        assert(s@.subrange(0, n as int) =~= s@);
    }
    chars_to_string(&out)
}

} // verus!
