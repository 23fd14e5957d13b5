use aiwm_core::family::FamilySource;
use aiwm_core::origin::{DownloadOrigin, DownloadOriginDto};
use aiwm_core::tokens::HostTokens;

#[test]
fn a_civitai_pony_lora_records_its_origin_and_base() {
    let o = DownloadOrigin::civitai("12345", Some("67890"), Some("Pony")).unwrap();
    assert_eq!(o.origin.as_deref(), Some("civitai:12345/67890"));
    assert_eq!(o.base_family, Some("pony"));
    assert_eq!(o.family_source, Some(FamilySource::Civitai));
}

#[test]
fn an_unknown_label_records_the_origin_but_no_family() {
    let o = DownloadOrigin::civitai("1", None, Some("ZImageBase")).unwrap();
    assert_eq!(o.origin.as_deref(), Some("civitai:1"));
    assert_eq!(o.base_family, None);
    assert_eq!(o.family_source, None);
}

#[test]
fn a_hugging_face_repo_records_repo_revision_and_base() {
    let o = DownloadOrigin::hf(
        "someone/klein-style",
        None,
        Some("base_model:adapter:black-forest-labs/FLUX.2-klein-4B"),
    )
    .unwrap();
    assert_eq!(o.origin.as_deref(), Some("hf:someone/klein-style@main"));
    assert_eq!(o.base_family, Some("flux2-klein-4b"));
    assert_eq!(o.family_source, Some(FamilySource::Hf));
}

#[test]
fn malformed_ids_are_refused() {
    assert!(DownloadOrigin::civitai("12a", None, None).is_err());
    assert!(DownloadOrigin::civitai("1", Some("x/y"), None).is_err());
    assert!(DownloadOrigin::hf("no-slash", None, None).is_err());
    assert!(DownloadOrigin::hf("a/b/c", None, None).is_err());
    assert!(DownloadOrigin::hf("a/b", Some("../etc"), None).is_err());
    let bad = DownloadOriginDto {
        source: "ftp".into(),
        model_id: "1".into(),
        version: None,
        base_model: None,
    };
    assert!(DownloadOrigin::from_dto(Some(&bad)).is_err());
}

#[test]
fn no_dto_means_nothing_known() {
    assert_eq!(
        DownloadOrigin::from_dto(None).unwrap(),
        DownloadOrigin::default()
    );
}

#[test]
fn a_dto_is_routed_by_its_source_in_any_case() {
    let dto = DownloadOriginDto {
        source: " HuggingFace ".into(),
        model_id: "someone/style".into(),
        version: Some("v1.0".into()),
        base_model: Some("stabilityai/stable-diffusion-xl-base-1.0".into()),
    };
    let o = DownloadOrigin::from_dto(Some(&dto)).unwrap();
    assert_eq!(o.origin.as_deref(), Some("hf:someone/style@v1.0"));
    assert_eq!(o.base_family, Some("sdxl"));
    let ftp = DownloadOriginDto {
        source: " FTP".into(),
        model_id: "1".into(),
        version: None,
        base_model: None,
    };
    assert_eq!(
        DownloadOrigin::from_dto(Some(&ftp)).unwrap_err(),
        aiwm_core::error::CoreError::Config("download origin: unknown source \"ftp\"".into())
    );
    assert_eq!(
        DownloadOrigin::civitai(" 12a ", None, None).unwrap_err(),
        aiwm_core::error::CoreError::Config(
            "download origin: \"12a\" is not a Civitai model id".into()
        )
    );
}

fn tokens() -> HostTokens {
    HostTokens {
        civitai: Some("civ-key".into()),
        huggingface: Some("hf-key".into()),
    }
}

#[test]
fn each_host_gets_only_its_own_key() {
    let t = tokens();

    assert_eq!(
        t.for_url("https://civitai.com/api/download/models/1"),
        Some("civ-key")
    );
    assert_eq!(
        t.for_url("https://civitai.red/api/download/models/1"),
        Some("civ-key")
    );
    assert_eq!(
        t.for_url("https://huggingface.co/x/resolve/main/f.gguf"),
        Some("hf-key")
    );
    assert_eq!(t.for_url("https://cdn-lfs.hf.co/x/f.gguf"), Some("hf-key"));
}

#[test]
fn a_look_alike_or_unrelated_host_never_sees_a_key() {
    let t = tokens();

    for url in [
        "https://civitai.com.evil.test/api/download/models/1",
        "https://notcivitai.com/api/download/models/1",
        "https://civitai.red.evil.test/f",
        "https://example.test/f.safetensors",
        "https://civitai-delivery-worker-prod.abc.r2.cloudflarestorage.com/model/1/x.safetensors",
        "not a url at all",
    ] {
        assert_eq!(t.for_url(url), None, "{url} must not receive a key");
    }
}

#[test]
fn without_a_key_a_known_host_is_still_recognised_for_the_message() {
    let empty = HostTokens::default();

    assert_eq!(
        empty.for_url("https://civitai.com/api/download/models/1"),
        None
    );
    assert!(empty.knows("https://civitai.com/api/download/models/1"));
    assert!(!empty.knows("https://example.test/f"));
    assert_eq!(
        HostTokens::key_name("https://civitai.red/api/download/models/1"),
        "Civitai API key"
    );
    assert_eq!(
        HostTokens::key_name("https://huggingface.co/x/f"),
        "Hugging Face token"
    );
}

#[test]
fn userinfo_ports_and_case_do_not_fool_the_host_check() {
    let t = tokens();
    assert_eq!(t.for_url("HTTPS://CivitAI.com:443/x"), Some("civ-key"));
    assert_eq!(t.for_url("https://civitai.com@evil.test/x"), None);
    assert_eq!(t.for_url("https://evil.test@huggingface.co/x"), Some("hf-key"));
    assert_eq!(t.for_url("https:///x"), None);
}
