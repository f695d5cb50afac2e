use mdvault::config::OpenAIConfig;
use mdvault::embedding::Embedding;
use mdvault::error::Error;
use mdvault::file::File;
use mdvault::mdfile::MDFile;
use mdvault::prompt::Prompt;
use mdvault::vault::FileData;
use mdvault::vault::Vault;

fn data(path: &str, last_modified: u128, contents: &str) -> FileData {
    FileData {
        path: path.to_string(),
        last_modified,
        contents: contents.to_string(),
    }
}

fn sample_config() -> OpenAIConfig {
    OpenAIConfig {
        validation_url: "https://models.example".to_string(),
        embedding_model: "embedder".to_string(),
        smart_text_model: "smart".to_string(),
        cheap_text_model: "cheap".to_string(),
        smart_model_max_tokens: 128,
        cheap_model_max_tokens: 64,
        embedding_url: "https://embeddings.example".to_string(),
        chat_url: "https://chat.example".to_string(),
        api_key: "test-api-key".to_string(),
        characters_per_token: 4,
    }
}

fn attach_embedding(vault: &mut Vault, key: &str, coords: Vec<i64>) {
    let results = vec![(key.to_string(), Embedding::new(coords))];
    vault.apply_refresh_results(&results);
}

#[test]
fn test_from_snapshot_two_files() {
    let vault = Vault::from_snapshot(
        "/vault".to_string(),
        vec![data("/vault/a.md", 100, "A"), data("/vault/b.md", 100, "B")],
    )
    .unwrap();
    assert_eq!(vault.get_files().len(), 2);
    let a = vault.get_file(&"a.md".to_string()).unwrap();
    assert_eq!(a.get_mdfile().unwrap().get_body(), "A");
    let b = vault.get_file(&"b.md".to_string()).unwrap();
    assert_eq!(b.get_mdfile().unwrap().get_body(), "B");
}

#[test]
fn test_from_snapshot_rejects_unknown_extension() {
    let r = Vault::from_snapshot(
        "/vault".to_string(),
        vec![data("/vault/a.md", 1, "A"), data("/vault/b.txt", 1, "B")],
    );
    match r {
        Err(Error::UnsupportedFileType(p)) => assert_eq!(p, "/vault/b.txt"),
        other => panic!("expected UnsupportedFileType, got {:?}", other.map(|_| ())),
    }
}

#[test]
fn test_reconcile_unchanged_file_keeps_embedding() {
    let mut vault = Vault::from_snapshot(
        "/vault".to_string(),
        vec![data("/vault/a.md", 100, "A")],
    )
    .unwrap();
    attach_embedding(&mut vault, "a.md", vec![1, 2]);

    vault
        .reconcile(vec![data("/vault/a.md", 100, "A"), data("/vault/b.md", 100, "B")])
        .unwrap();

    let a = vault.get_file(&"a.md".to_string()).unwrap();
    assert!(a.get_mdfile().unwrap().get_embedding().is_some());
    let b = vault.get_file(&"b.md".to_string()).unwrap();
    assert!(b.get_mdfile().unwrap().get_embedding().is_none());
    assert_eq!(b.get_mdfile().unwrap().get_body(), "B");
    assert_eq!(vault.get_files().len(), 2);
}

#[test]
fn test_reconcile_newer_file_reloads_and_clears_embedding() {
    let mut vault = Vault::from_snapshot(
        "/vault".to_string(),
        vec![data("/vault/a.md", 100, "A")],
    )
    .unwrap();
    attach_embedding(&mut vault, "a.md", vec![1, 2]);

    vault.reconcile(vec![data("/vault/a.md", 101, "A changed")]).unwrap();

    let a = vault.get_file(&"a.md".to_string()).unwrap();
    assert!(a.get_mdfile().unwrap().get_embedding().is_none());
    assert_eq!(a.get_mdfile().unwrap().get_body(), "A changed");
}

#[test]
fn test_reconcile_keeps_entries_for_vanished_files() {
    let mut vault = Vault::from_snapshot(
        "/vault".to_string(),
        vec![data("/vault/a.md", 100, "A"), data("/vault/b.md", 100, "B")],
    )
    .unwrap();
    vault.reconcile(vec![data("/vault/a.md", 100, "A")]).unwrap();
    assert_eq!(vault.get_files().len(), 2);
    assert!(vault.get_file(&"b.md".to_string()).is_some());
}

#[test]
fn test_plan_refresh_requires_provider() {
    let vault = Vault::from_snapshot(
        "/vault".to_string(),
        vec![data("/vault/a.md", 100, "A")],
    )
    .unwrap();
    let r = vault.plan_refresh(&vec![]);
    assert!(matches!(r, Err(Error::NoAIDriver)));
}

#[test]
fn test_plan_refresh_selects_stale_entries() {
    let mut vault = Vault::from_snapshot(
        "/vault".to_string(),
        vec![
            data("/vault/a.md", 100, "A"),
            data("/vault/b.md", 100, "B"),
            data("/vault/c.md", 100, "C"),
        ],
    )
    .unwrap();
    vault.add_ai_driver(sample_config());
    // everything starts stale: no entry has an embedding yet
    let stale = vault.plan_refresh(&vec![]).unwrap();
    assert_eq!(stale, vec!["a.md".to_string(), "b.md".to_string(), "c.md".to_string()]);

    attach_embedding(&mut vault, "a.md", vec![1]);
    attach_embedding(&mut vault, "b.md", vec![2]);
    attach_embedding(&mut vault, "c.md", vec![3]);
    // nothing stale while the disk state matches the recorded times
    let observed = vec![("a.md".to_string(), 100u128), ("b.md".to_string(), 100u128)];
    assert_eq!(vault.plan_refresh(&observed).unwrap(), Vec::<String>::new());
    // a file observed strictly newer is stale again, even with an embedding
    let observed = vec![("b.md".to_string(), 250u128)];
    assert_eq!(vault.plan_refresh(&observed).unwrap(), vec!["b.md".to_string()]);
}

#[test]
fn test_refresh_partial_failure_updates_the_rest() {
    let mut vault = Vault::from_snapshot(
        "/vault".to_string(),
        vec![
            data("/vault/a.md", 100, "A"),
            data("/vault/b.md", 100, "B"),
            data("/vault/c.md", 100, "C"),
        ],
    )
    .unwrap();
    vault.add_ai_driver(sample_config());
    let stale = vault.plan_refresh(&vec![]).unwrap();
    assert_eq!(stale.len(), 3);

    // the provider failed for b.md alone
    let results = vec![
        ("a.md".to_string(), Embedding::new(vec![1, 0])),
        ("b.md".to_string(), None),
        ("c.md".to_string(), Embedding::new(vec![0, 1])),
    ];
    vault.apply_refresh_results(&results);

    let emb = |k: &str| {
        vault
            .get_file(&k.to_string())
            .unwrap()
            .get_mdfile()
            .unwrap()
            .get_embedding()
            .cloned()
    };
    assert!(emb("a.md").is_some());
    assert!(emb("b.md").is_none());
    assert!(emb("c.md").is_some());
}

#[test]
fn test_get_closest_files_two_nearest() {
    let mut vault = Vault::from_snapshot(
        "/vault".to_string(),
        vec![
            data("/vault/a.md", 1, "A"),
            data("/vault/b.md", 1, "B"),
            data("/vault/c.md", 1, "C"),
            data("/vault/d.md", 1, "no embedding, never a candidate"),
        ],
    )
    .unwrap();
    attach_embedding(&mut vault, "a.md", vec![0, 0]);
    attach_embedding(&mut vault, "b.md", vec![1, 0]);
    attach_embedding(&mut vault, "c.md", vec![5, 5]);

    let nearest = vault.get_closest_files(&"a.md".to_string(), 2).unwrap();
    assert_eq!(nearest, vec![("a.md".to_string(), 0u128), ("b.md".to_string(), 1u128)]);
}

#[test]
fn test_get_closest_files_by_threshold() {
    let mut vault = Vault::from_snapshot(
        "/vault".to_string(),
        vec![
            data("/vault/a.md", 1, "A"),
            data("/vault/b.md", 1, "B"),
            data("/vault/c.md", 1, "C"),
        ],
    )
    .unwrap();
    attach_embedding(&mut vault, "a.md", vec![0, 0]);
    attach_embedding(&mut vault, "b.md", vec![1, 0]);
    attach_embedding(&mut vault, "c.md", vec![5, 5]);

    // radius 1.5 as the ratio 3 / 2
    let within = vault
        .get_closest_files_by_threshold(&"a.md".to_string(), 3, 2)
        .unwrap();
    assert_eq!(within, vec![("a.md".to_string(), 0u128), ("b.md".to_string(), 1u128)]);
}

#[test]
fn test_query_errors() {
    let mut vault = Vault::from_snapshot(
        "/vault".to_string(),
        vec![data("/vault/a.md", 1, "A")],
    )
    .unwrap();
    let r = vault.get_closest_files(&"missing.md".to_string(), 1);
    assert!(matches!(r, Err(Error::PathNotFound(_))));
    let r = vault.get_closest_files(&"a.md".to_string(), 1);
    assert!(matches!(r, Err(Error::NoEmbedding(_))));
    attach_embedding(&mut vault, "a.md", vec![0]);
    let r = vault.get_closest_files_by_threshold(&"missing.md".to_string(), 1, 1);
    assert!(matches!(r, Err(Error::PathNotFound(_))));
}

#[test]
fn test_add_file_outside_root_leaves_vault_unchanged() {
    let mut vault = Vault::from_snapshot(
        "/vault".to_string(),
        vec![data("/vault/a.md", 1, "A")],
    )
    .unwrap();
    let file = File::from_mdfile(
        "/elsewhere/x.md".to_string(),
        MDFile::new(None, "X".to_string()),
    );
    let r = vault.add_file("/elsewhere/x.md".to_string(), file);
    assert!(matches!(r, Err(Error::PathNotInVaultRoot(_, _))));
    assert_eq!(vault.get_files().len(), 1);
    assert!(vault.get_file(&"a.md".to_string()).is_some());
}

#[test]
fn test_add_file_duplicate_path() {
    let mut vault = Vault::from_snapshot(
        "/vault".to_string(),
        vec![data("/vault/a.md", 1, "A")],
    )
    .unwrap();
    let file = File::from_mdfile("/vault/a.md".to_string(), MDFile::new(None, "A2".to_string()));
    let r = vault.add_file("/vault/a.md".to_string(), file);
    assert!(matches!(r, Err(Error::VaultAlreadyContainsPath(_))));
    assert_eq!(vault.get_files().len(), 1);
}

#[test]
fn test_add_path_inserts_new_entry() {
    let mut vault = Vault::from_snapshot("/vault".to_string(), vec![]).unwrap();
    vault.add_path("/vault/new.md".to_string(), 7, "fresh".to_string()).unwrap();
    let f = vault.get_file(&"new.md".to_string()).unwrap();
    assert_eq!(f.get_mdfile().unwrap().get_body(), "fresh");
    assert_eq!(f.last_modified, Some(7));

    let r = vault.add_path("/vault/outside".to_string(), 7, "x".to_string());
    assert!(matches!(r, Err(Error::UnsupportedFileType(_))));
    let r = vault.add_path("/other/new.md".to_string(), 7, "x".to_string());
    assert!(matches!(r, Err(Error::PathNotInVaultRoot(_, _))));
    assert_eq!(vault.get_files().len(), 1);
}

#[test]
fn test_get_file_mut_edits_in_place() {
    let mut vault = Vault::from_snapshot(
        "/vault".to_string(),
        vec![data("/vault/a.md", 1, "A")],
    )
    .unwrap();
    attach_embedding(&mut vault, "a.md", vec![1]);
    {
        let f = vault.get_file_mut(&"a.md".to_string()).unwrap();
        let md = f.get_mdfile_mut().unwrap();
        md.set_body("rewritten".to_string());
    }
    let f = vault.get_file(&"a.md".to_string()).unwrap();
    assert_eq!(f.get_mdfile().unwrap().get_body(), "rewritten");
    // the mutation cleared the derived embedding
    assert!(f.get_mdfile().unwrap().get_embedding().is_none());
}

#[test]
fn test_token_budget() {
    let config = sample_config();
    let prompt = Prompt::new("sys", "user", Some(100));
    assert_eq!(config.token_budget(&prompt, 128).unwrap(), Some(25));
    let uncapped = Prompt::new("sys", "user", None);
    assert_eq!(config.token_budget(&uncapped, 128).unwrap(), None);
    let r = config.token_budget(&prompt, 10);
    assert!(matches!(r, Err(Error::PromptExceedsModelTokenLimit(_))));
}
