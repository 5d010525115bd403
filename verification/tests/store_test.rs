use std::collections::HashMap;

use recipes::error::Error;
use recipes::recipe::Ingredient;
use recipes::recipe::IngredientsSection;
use recipes::recipe::RawRecipe;
use recipes::recipes::Recipes;
use recipes::recipes::RecipesIo;
use recipes::store::FileOp;

fn recipe(name: &str) -> RawRecipe {
    RawRecipe {
        name: name.to_string(),
        description: "b".to_string(),
        ingredients_sections: vec![IngredientsSection {
            heading: "f".to_string(),
            ingredients: vec![Ingredient {
                name: "g".to_string(),
                amount: "h".to_string(),
                unit: Some("i".to_string()),
            }],
        }],
        instructions: "d".to_string(),
        source: "e".to_string(),
        categories: vec![],
    }
}

fn empty() -> Recipes {
    let (store, warnings) = Recipes::load_records(Vec::new());
    assert!(warnings.is_empty());
    store
}

/// Runs a plan against a simulated file set, storing the content the index
/// holds at the moment of the write, as the storage layer would.
fn apply_plan(files: &mut HashMap<String, RawRecipe>, store: &Recipes, plan: &[FileOp]) {
    for op in plan {
        match op {
            FileOp::Write(id) => {
                let record = store.get(id).expect("a planned write names an indexed record");
                files.insert(id.clone(), record.clone());
            }
            FileOp::Delete(id) => {
                files.remove(id);
            }
        }
    }
}

#[test]
fn create_then_get_returns_the_record() {
    let mut store = empty();
    let doc = recipe("test 1");
    store.create("test-1".to_string(), doc.clone()).unwrap();
    assert_eq!(store.get("test-1"), Ok(&doc));
}

#[test]
fn create_conflict_keeps_the_original() {
    let mut store = empty();
    let original = recipe("test 1");
    let rejected = recipe("other");
    store.create("test-1".to_string(), original.clone()).unwrap();
    let r = store.create("test-1".to_string(), rejected);
    assert_eq!(r.unwrap_err(), Error::AlreadyExists);
    assert_eq!(store.get("test-1"), Ok(&original));
    assert_eq!(store.len(), 1);
}

#[test]
fn delete_absent_touches_no_file() {
    let mut store = empty();
    let r = store.delete("missing");
    assert_eq!(r.unwrap_err(), Error::NotFound);
    assert_eq!(store.len(), 0);
}

#[test]
fn delete_removes_record_and_plans_one_file_removal() {
    let mut store = empty();
    store.create("test-1".to_string(), recipe("test 1")).unwrap();
    let plan = store.delete("test-1").unwrap();
    assert!(matches!(&plan[..], [FileOp::Delete(id)] if id == "test-1"));
    assert_eq!(store.get("test-1"), Err(Error::NotFound));
}

#[test]
fn replace_renames_and_writes_before_deleting() {
    let mut store = empty();
    let mut files = HashMap::new();
    let old_doc = recipe("old");
    let plan = store.create("old".to_string(), old_doc).unwrap();
    apply_plan(&mut files, &store, &plan);

    let doc = recipe("new");
    let plan = store.replace("old", "new".to_string(), doc.clone()).unwrap();
    // The new file is written strictly before the old one is deleted, so an
    // interruption in between leaves both files present - never neither.
    assert!(matches!(
        &plan[..],
        [FileOp::Write(w), FileOp::Delete(d)] if w == "new" && d == "old"
    ));
    assert_eq!(store.get("old"), Err(Error::NotFound));
    assert_eq!(store.get("new"), Ok(&doc));

    apply_plan(&mut files, &store, &plan[..1]);
    assert!(files.contains_key("old") && files.contains_key("new"));
    let mut files_after_crash_window = files.clone();
    apply_plan(&mut files_after_crash_window, &store, &plan[1..]);
    assert!(!files_after_crash_window.contains_key("old"));
    assert_eq!(files_after_crash_window.get("new"), Some(&doc));
}

#[test]
fn replace_in_place_overwrites() {
    let mut store = empty();
    store.create("same".to_string(), recipe("first")).unwrap();
    let doc = recipe("second");
    let plan = store.replace("same", "same".to_string(), doc.clone()).unwrap();
    assert!(matches!(&plan[..], [FileOp::Write(w)] if w == "same"));
    assert_eq!(store.get("same"), Ok(&doc));
}

#[test]
fn replace_onto_foreign_id_is_rejected() {
    let mut store = empty();
    let kept = recipe("a");
    store.create("a".to_string(), kept.clone()).unwrap();
    store.create("b".to_string(), recipe("b")).unwrap();
    let r = store.replace("b", "a".to_string(), recipe("clash"));
    assert_eq!(r.unwrap_err(), Error::AlreadyExists);
    assert_eq!(store.get("a"), Ok(&kept));
    assert_eq!(store.len(), 2);
}

#[test]
fn replace_of_an_absent_id_plans_the_stale_file_removal() {
    let mut store = empty();
    let doc = recipe("new");
    let plan = store.replace("ghost", "new".to_string(), doc.clone()).unwrap();
    assert!(matches!(
        &plan[..],
        [FileOp::Write(w), FileOp::Delete(d)] if w == "new" && d == "ghost"
    ));
    assert_eq!(store.get("new"), Ok(&doc));
    assert_eq!(store.get("ghost"), Err(Error::NotFound));
}

#[test]
fn replace_of_an_absent_id_with_itself_ends_without_the_record() {
    // The rename path inserts the new id and then removes the old one; when
    // both name the same absent id, the removal takes out what was just
    // inserted, and the plan rewrites and then removes the file.
    let mut store = empty();
    let plan = store.replace("ghost", "ghost".to_string(), recipe("ghost")).unwrap();
    assert!(matches!(
        &plan[..],
        [FileOp::Write(w), FileOp::Delete(d)] if w == "ghost" && d == "ghost"
    ));
    assert_eq!(store.get("ghost"), Err(Error::NotFound));
    assert_eq!(store.len(), 0);
}

#[test]
fn three_distinct_creates_leave_three_matching_files() {
    let mut store = empty();
    let mut files = HashMap::new();
    for name in ["one", "two", "three"] {
        let doc = recipe(name);
        let plan = store.create(name.to_string(), doc).unwrap();
        apply_plan(&mut files, &store, &plan);
    }
    assert_eq!(store.len(), 3);
    assert_eq!(files.len(), 3);
    for (id, doc) in store.list() {
        assert_eq!(files.get(id), Some(doc));
    }
}

#[test]
fn load_records_keys_by_normalized_name_and_warns_on_drift() {
    let records = vec![
        ("test-1".to_string(), recipe("test 1")),
        ("stale-name".to_string(), recipe("Crêpe")),
    ];
    let (store, warnings) = Recipes::load_records(records);
    assert_eq!(store.len(), 2);
    assert!(store.get("test-1").is_ok());
    assert!(store.get("crepe").is_ok());
    assert_eq!(warnings, vec!["stale-name".to_string()]);
}

#[test]
fn load_records_keeps_the_later_duplicate() {
    let records = vec![
        ("dup".to_string(), recipe("dup")),
        ("dup".to_string(), {
            let mut r = recipe("dup");
            r.description = "later".to_string();
            r
        }),
    ];
    let (store, warnings) = Recipes::load_records(records);
    assert!(warnings.is_empty());
    assert_eq!(store.len(), 1);
    assert_eq!(store.get("dup").unwrap().description, "later");
}

#[test]
fn path_of_joins_directory_id_and_extension() {
    let io = RecipesIo("recipes".to_string());
    assert_eq!(io.path_of("test-1"), "recipes/test-1.json");
    assert_eq!(io.prepare_delete("test-1").path, "recipes/test-1.json");
}

#[test]
fn io_errors_are_downgraded_to_internal() {
    assert_eq!(recipes::recipes::handle_io_error(), Error::Internal);
    assert_eq!(Error::Internal.code(), "internal-error");
    assert_eq!(Error::NotFound.code(), "not-found");
    assert_eq!(Error::AlreadyExists.code(), "already-exists");
    assert_eq!(Error::EmptyId.code(), "empty-id");
    assert_eq!(Error::Unauthorized.code(), "unauthorized");
    assert_eq!(Error::UserNameTooShort.code(), "user-name-too-short");
    assert_eq!(Error::PasswordTooShort.code(), "password-too-short");
}
