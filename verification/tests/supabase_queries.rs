//! The requests the REST query builder assembles.

use space_lib::common::{Method, RequestData, SendStringData};
use space_lib::http::HostSlot;
use space_lib::supabase::Supabase;

fn pairs(flat: &[String]) -> Vec<(String, String)> {
    assert!(flat.len() % 2 == 0);
    flat.chunks(2).map(|c| (c[0].clone(), c[1].clone())).collect()
}

#[test]
fn plain_select_becomes_a_get() {
    let client = Supabase::new("https://db.example").insert_header("apikey", "SECRET-REDACTED");
    let prepared = client
        .from("countries")
        .select("name,population")
        .order("name")
        .execute()
        .expect("representable");
    assert!(prepared.slot == HostSlot::CallRequest);
    let back = RequestData::decode(&prepared.envelope).expect("decodes");
    assert_eq!(back.url, "https://db.example/rest/v1/countries");
    assert!(back.method == Method::GET);
    assert_eq!(
        pairs(&back.headers),
        vec![("apikey".to_string(), "SECRET-REDACTED".to_string())]
    );
    assert_eq!(
        pairs(&back.queries),
        vec![
            ("select".to_string(), "name,population".to_string()),
            ("order".to_string(), "name".to_string()),
        ]
    );
}

#[test]
fn auth_adds_a_bearer_header() {
    let client = Supabase::new("https://db.example");
    let prepared = client.from("t").auth("tok").execute().expect("representable");
    let back = RequestData::decode(&prepared.envelope).expect("decodes");
    assert_eq!(
        pairs(&back.headers),
        vec![("Authorization".to_string(), "Bearer tok".to_string())]
    );
}

#[test]
fn limit_and_range_write_item_ranges() {
    let client = Supabase::new("https://db.example");
    let limited = client.from("t").limit(10).execute().expect("representable");
    let back = RequestData::decode(&limited.envelope).expect("decodes");
    assert_eq!(
        pairs(&back.headers),
        vec![
            ("Range-Unit".to_string(), "items".to_string()),
            ("Range".to_string(), "0-9".to_string()),
        ]
    );

    let ranged = client.from("t").range(2, 7).execute().expect("representable");
    let back = RequestData::decode(&ranged.envelope).expect("decodes");
    assert_eq!(
        pairs(&back.headers),
        vec![
            ("Range-Unit".to_string(), "items".to_string()),
            ("Range".to_string(), "2-7".to_string()),
        ]
    );
}

#[test]
fn count_modes_ask_for_one_row_and_a_count() {
    let client = Supabase::new("https://db.example");
    for (build, mode) in [
        (client.from("t").exact_count(), "exact"),
        (client.from("t").planned_count(), "planned"),
        (client.from("t").estimated_count(), "estimated"),
    ] {
        let prepared = build.execute().expect("representable");
        let back = RequestData::decode(&prepared.envelope).expect("decodes");
        assert_eq!(
            pairs(&back.headers),
            vec![
                ("Range-Unit".to_string(), "items".to_string()),
                ("Range".to_string(), "0-0".to_string()),
                ("Insert".to_string(), format!("count={mode}")),
            ]
        );
    }
}

#[test]
fn single_asks_for_a_bare_object() {
    let client = Supabase::new("https://db.example");
    let prepared = client.from("t").single().execute().expect("representable");
    let back = RequestData::decode(&prepared.envelope).expect("decodes");
    assert_eq!(
        pairs(&back.headers),
        vec![(
            "Accept".to_string(),
            "application/vnd.pgrst.object+json".to_string()
        )]
    );
}

#[test]
fn insert_posts_its_body() {
    let client = Supabase::new("https://db.example");
    let prepared = client
        .from("rows")
        .insert("{\"id\":1}".to_string())
        .execute()
        .expect("representable");
    assert!(prepared.slot == HostSlot::SendString);
    let back = SendStringData::decode(&prepared.envelope).expect("decodes");
    assert_eq!(back.data, "{\"id\":1}");
    assert!(back.request_data.method == Method::POST);
    assert_eq!(
        pairs(&back.request_data.headers),
        vec![("Prefer".to_string(), "return=representation".to_string())]
    );
}

#[test]
fn upsert_merges_duplicates() {
    let client = Supabase::new("https://db.example");
    let prepared = client
        .from("rows")
        .upsert("{}".to_string())
        .on_conflict("id")
        .execute()
        .expect("representable");
    let back = SendStringData::decode(&prepared.envelope).expect("decodes");
    assert!(back.request_data.method == Method::POST);
    assert_eq!(
        pairs(&back.request_data.headers),
        vec![(
            "Prefer".to_string(),
            "return=representation,resolution=merge-duplicates".to_string()
        )]
    );
    assert_eq!(
        pairs(&back.request_data.queries),
        vec![("on_conflict".to_string(), "id".to_string())]
    );
}

#[test]
fn update_patches_and_delete_deletes() {
    let client = Supabase::new("https://db.example");
    let updated = client
        .from("rows")
        .update("{\"x\":2}".to_string())
        .execute()
        .expect("representable");
    let back = SendStringData::decode(&updated.envelope).expect("decodes");
    assert!(back.request_data.method == Method::PATCH);

    let deleted = client.from("rows").delete().execute().expect("representable");
    let back = RequestData::decode(&deleted.envelope).expect("decodes");
    assert!(back.method == Method::DELETE);
    assert_eq!(
        pairs(&back.headers),
        vec![("Prefer".to_string(), "return=representation".to_string())]
    );
}

#[test]
fn not_filter_renders_on_the_column() {
    let client = Supabase::new("https://db.example");
    let prepared = client
        .from("t")
        .not("eq", "age", "13")
        .execute()
        .expect("representable");
    let back = RequestData::decode(&prepared.envelope).expect("decodes");
    assert_eq!(
        pairs(&back.queries),
        vec![("age".to_string(), "not.eq.13".to_string())]
    );
}
