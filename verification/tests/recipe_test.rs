use recipes::recipe::Ingredient;
use recipes::recipe::IngredientsSection;
use recipes::recipe::RawRecipe;
use recipes::recipe::bake_string;
use recipes::recipe::clean;

#[test]
fn clean_trims_a_field_in_place() {
    let mut s = "  Nasi Goreng \t".to_string();
    clean(&mut s);
    assert_eq!(s, "Nasi Goreng");
}

#[test]
fn clean_normalizes_a_submitted_recipe() {
    let mut recipe = RawRecipe {
        name: "  test 1 ".to_string(),
        description: " d ".to_string(),
        ingredients_sections: vec![IngredientsSection {
            heading: " Dough ".to_string(),
            ingredients: vec![
                Ingredient {
                    name: " Flour ".to_string(),
                    amount: " 1,5 ".to_string(),
                    unit: Some(" kg ".to_string()),
                },
                Ingredient {
                    name: "Salt".to_string(),
                    amount: "1".to_string(),
                    unit: None,
                },
            ],
        }],
        instructions: " keep me as entered ".to_string(),
        source: " and me ".to_string(),
        categories: vec![" Dinner ".to_string()],
    };
    recipe.clean();
    assert_eq!(recipe.name, "test 1");
    assert_eq!(recipe.description, "d");
    let section = &recipe.ingredients_sections[0];
    assert_eq!(section.heading, "Dough");
    assert_eq!(section.ingredients[0].name, "Flour");
    assert_eq!(section.ingredients[0].amount, "1.5");
    assert_eq!(section.ingredients[0].unit.as_deref(), Some("kg"));
    assert_eq!(section.ingredients[1].amount, "1");
    assert_eq!(section.ingredients[1].unit, None);
    // The free-text body is left exactly as entered.
    assert_eq!(recipe.instructions, " keep me as entered ");
    assert_eq!(recipe.source, " and me ");
    assert_eq!(recipe.categories, vec!["Dinner".to_string()]);
}

#[test]
fn bake_string_escapes_markup() {
    assert_eq!(bake_string("<b>&\"'"), "&lt;b&gt;&amp;&quot;&#39;");
    assert_eq!(bake_string("plain text"), "plain text");
    assert_eq!(bake_string(""), "");
}
