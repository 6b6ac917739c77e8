use serde_json::Value;
use winget_core::codec::{decrypt_container, encrypt_container};
use winget_core::package::WingetPackage;
use winget_core::parser::parse_winget_output;

fn optional(text: &Option<String>) -> Value {
    match text {
        Some(t) => Value::String(t.clone()),
        None => Value::Null,
    }
}

fn to_json(p: &WingetPackage) -> Value {
    let mut fields = serde_json::Map::new();
    fields.insert("name".to_string(), Value::String(p.name.clone()));
    fields.insert("id".to_string(), Value::String(p.id.clone()));
    fields.insert("version".to_string(), Value::String(p.version.clone()));
    fields.insert("available_version".to_string(), optional(&p.available_version));
    fields.insert("source".to_string(), optional(&p.source));
    Value::Object(fields)
}

fn field(v: &Value, name: &str) -> Option<String> {
    v.get(name).and_then(|f| f.as_str()).map(|s| s.to_string())
}

fn from_json(v: &Value) -> WingetPackage {
    WingetPackage {
        name: field(v, "name").unwrap(),
        id: field(v, "id").unwrap(),
        version: field(v, "version").unwrap(),
        available_version: field(v, "available_version"),
        source: field(v, "source"),
    }
}

fn round_trip(records: &[WingetPackage]) -> Vec<WingetPackage> {
    let json = Value::Array(records.iter().map(to_json).collect());
    let text = serde_json::to_string(&json).unwrap();
    let container = encrypt_container(text.as_bytes()).unwrap();
    let plaintext = decrypt_container(&container).unwrap();
    let text = String::from_utf8(plaintext).unwrap();
    let json: Value = serde_json::from_str(&text).unwrap();
    json.as_array().unwrap().iter().map(from_json).collect()
}

#[test]
fn records_survive_export_and_import() {
    let records = vec![
        WingetPackage {
            name: "7-Zip".to_string(),
            id: "7zip.7zip".to_string(),
            version: "19.00".to_string(),
            available_version: Some("21.07".to_string()),
            source: Some("winget".to_string()),
        },
        WingetPackage {
            name: "Sürücü \"Aracı\"".to_string(),
            id: "Şirket.Araç".to_string(),
            version: String::new(),
            available_version: None,
            source: None,
        },
    ];
    assert_eq!(round_trip(&records), records);
}

#[test]
fn absent_fields_stay_distinct_from_empty_ones() {
    let records = vec![
        WingetPackage {
            name: "a".to_string(),
            id: "b".to_string(),
            version: String::new(),
            available_version: Some(String::new()),
            source: None,
        },
        WingetPackage {
            name: "a".to_string(),
            id: "b".to_string(),
            version: String::new(),
            available_version: None,
            source: Some(String::new()),
        },
    ];
    assert_eq!(round_trip(&records), records);
}

#[test]
fn parsed_listing_survives_export_and_import() {
    let listing = "Name                 Id                      Version    Available  Source\n\
                   ---------------------------------------------------------------------------\n\
                   7-Zip                7zip.7zip               19.00      21.07      winget\n\
                   Git                  Git.Git                 2.40.0                winget\n";
    let records = parse_winget_output(listing);
    assert_eq!(records.len(), 2);
    assert_eq!(round_trip(&records), records);
}
