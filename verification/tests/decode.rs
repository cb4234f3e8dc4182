use nix_query::json::{parse_json, JsonValue};
use nix_query::nix::{
    decode_all, decode_license, decode_query, AllNixInfo, FullLicense, License, Maintainer,
    MaintainerInfo, NixInfo, NixMeta, NixPath, NixPathParseErr, NixQueryError,
};

const TERN: &str = "{\"nixpkgs.nodePackages.tern\": {\
\"name\":\"node_tern-0.24.2\",\
\"pname\":\"node_tern\",\
\"version\":\"0.24.2\",\
\"system\":\"x86_64-linux\",\
\"meta\":{\
\"available\":true,\
\"description\":\"A JavaScript code analyzer for deep, cross-editor language support\",\
\"homepage\":\"https://github.com/ternjs/tern#readme\",\
\"license\":\"MIT\",\
\"name\":\"node_tern-0.24.2\",\
\"outputsToInstall\":[\"out\"],\
\"position\":\"/nix/store/lybqxz1h84knafw4l9mh248lfiqrw35a-nixpkgs-20.03pre210712.d8cb4ed910c/nixpkgs/pkgs/development/node-packages/node-packages-v10.nix:72689\"\
}}}";

#[test]
fn test_deserialize_tern() {
    assert_eq!(
        &NixInfo {
            name: "node_tern-0.24.2".to_string(),
            pname: "node_tern".to_string(),
            version: "0.24.2".to_string(),
            system: "x86_64-linux".to_string(),
            meta: NixMeta {
                available: true,
                description: Some("A JavaScript code analyzer for deep, cross-editor language support".to_string()),
                homepage: Some("https://github.com/ternjs/tern#readme".to_string()),
                license: Some(License::Id("MIT".to_string())),
                name: Some("node_tern-0.24.2".to_string()),
                outputs_to_install: vec!["out".to_string()],
                position: Some(NixPath {
                    path: "/nix/store/lybqxz1h84knafw4l9mh248lfiqrw35a-nixpkgs-20.03pre210712.d8cb4ed910c/nixpkgs/pkgs/development/node-packages/node-packages-v10.nix".to_string(),
                    line: 72689,
                }),
                broken: false,
                long_description: None,
                maintainers: vec![],
                platforms: vec![],
                priority: None,
            },
            attr: None,
        },
        decode_all(TERN)
            .unwrap()
            .get("nixpkgs.nodePackages.tern")
            .unwrap()
    );
}

#[test]
fn test_deserialize_ok() {
    let check = |s: &str, label: &str| -> NixInfo {
        let all: AllNixInfo =
            decode_all(s).unwrap_or_else(|_| panic!("Can deserialize test data for {}.", label));
        all.attrs
            .get(0)
            .unwrap_or_else(|| {
                panic!("String -> NixInfo map for {} has at least one value.", label)
            })
            .1
            .clone()
    };

    let gcc = "{\"nixpkgs.gcc\": {\"name\":\"gcc-wrapper-9.2.0\",\"pname\":\"gcc-wrapper\",\
\"version\":\"9.2.0\",\"system\":\"x86_64-linux\",\"meta\":{\
\"license\":{\"fullName\":\"GNU General Public License v3.0 or later\",\"shortName\":\"gpl3Plus\",\
\"spdxId\":\"GPL-3.0-or-later\",\"url\":\"https://spdx.org/licenses/GPL-3.0-or-later.html\"},\
\"platforms\":[\"x86_64-linux\",\"i686-linux\"],\"priority\":-9}}}";
    let gzip = "{\"nixpkgs.gzip\": {\"name\":\"gzip-1.10\",\"pname\":\"gzip\",\
\"version\":\"1.10\",\"system\":\"x86_64-linux\",\"meta\":{\
\"description\":\"GNU compression utility\",\
\"license\":{\"fullName\":\"GNU General Public License v3.0\",\"shortName\":\"gpl3\",\"free\":true},\
\"maintainers\":[{\"email\":\"someone@example.com\",\"github\":\"someone\",\"githubId\":4242,\
\"keys\":[{\"longkeyid\":\"rsa2048/0xDEADBEEF\",\"fingerprint\":\"AAAA BBBB\"}],\"name\":\"Some One\"}]}}}";
    let spotify = "{\"nixpkgs.spotify\": {\"name\":\"spotify-1.1.10\",\"pname\":\"spotify\",\
\"version\":\"1.1.10\",\"system\":\"x86_64-linux\",\"meta\":{\
\"available\":false,\"license\":{\"fullName\":\"Unfree\",\"shortName\":\"unfree\",\"free\":false},\
\"maintainers\":[\"somebody\"]}}}";
    let tern = TERN;
    let acpitool = "{\"nixpkgs.acpitool\": {\"name\":\"acpitool-0.5.1\",\"pname\":\"acpitool\",\
\"version\":\"0.5.1\",\"system\":\"x86_64-linux\",\"meta\":{\
\"broken\":false,\"platforms\":[[\"i686-linux\"],[\"x86_64-linux\"]],\
\"license\":[{\"fullName\":\"GNU General Public License v2.0\",\"shortName\":\"gpl2\"}]}}}";

    let _ = check(gcc, "test_data/gcc.json");
    let _ = check(gzip, "test_data/gcc.json");
    let _ = check(spotify, "test_data/spotify.json");
    let _ = check(tern, "test_data/tern.json");
    let _ = check(acpitool, "test_data/acpitool.json");
}

fn parse(s: &str) -> JsonValue {
    parse_json(s).expect("well-formed JSON")
}

#[test]
fn license_round_trip_five_shapes() {
    let shapes = [
        "\"MIT\"",
        "{\"fullName\":\"GNU General Public License v3.0\",\"shortName\":\"gpl3\",\
\"spdxId\":\"GPL-3.0-only\",\"url\":\"https://spdx.org/licenses/GPL-3.0-only.html\",\"free\":true}",
        "[{\"fullName\":\"A\",\"shortName\":\"a\"},{\"fullName\":\"B\",\"shortName\":\"b\"}]",
        "{\"fullName\":\"Only a name\"}",
        "{\"url\":\"https://example.com/license\"}",
    ];
    for s in shapes.iter() {
        let first = decode_license(&parse(s)).expect("shape decodes");
        let again = decode_license(&parse(s)).expect("shape decodes again");
        assert_eq!(first, again);
    }
    assert!(matches!(decode_license(&parse(shapes[0])), Some(License::Id(_))));
    assert!(matches!(decode_license(&parse(shapes[1])), Some(License::Full(_))));
    assert!(matches!(decode_license(&parse(shapes[2])), Some(License::FullVec(_))));
    assert!(matches!(decode_license(&parse(shapes[3])), Some(License::Named(_))));
    assert!(matches!(decode_license(&parse(shapes[4])), Some(License::Url(_))));
}

#[test]
fn license_decode_ignores_field_order() {
    let a = parse("{\"fullName\":\"GNU General Public License v3.0\",\"shortName\":\"gpl3\",\"free\":true}");
    let b = parse("{\"free\":true,\"shortName\":\"gpl3\",\"fullName\":\"GNU General Public License v3.0\"}");
    assert_eq!(decode_license(&a), decode_license(&b));
    assert_eq!(
        decode_license(&a),
        Some(License::Full(FullLicense {
            full_name: "GNU General Public License v3.0".to_string(),
            short_name: "gpl3".to_string(),
            spdx_id: None,
            url: None,
            free: true,
        }))
    );
}

#[test]
fn license_order_prefers_full_over_named() {
    // a record carrying both required field sets resolves as the more
    // specific full record, never as the bare name
    let v = parse("{\"fullName\":\"X\",\"shortName\":\"x\"}");
    assert!(matches!(decode_license(&v), Some(License::Full(_))));
    // a record whose optional field has the wrong type falls through to
    // the bare-name shape
    let w = parse("{\"fullName\":\"X\",\"shortName\":\"x\",\"free\":\"yes\"}");
    assert!(matches!(decode_license(&w), Some(License::Named(_))));
}

#[test]
fn platforms_flatten_matches_pre_flattened() {
    let nested = "{\"p\": {\"name\":\"x-1.0\",\"pname\":\"x\",\"version\":\"1.0\",\
\"system\":\"s\",\"meta\":{\"platforms\":[[\"a\",\"b\"],[\"c\",\"d\"]]}}}";
    let flat = "{\"p\": {\"name\":\"x-1.0\",\"pname\":\"x\",\"version\":\"1.0\",\
\"system\":\"s\",\"meta\":{\"platforms\":[\"a\",\"b\",\"c\",\"d\"]}}}";
    let n = decode_all(nested).unwrap();
    let f = decode_all(flat).unwrap();
    assert_eq!(
        n.get("p").unwrap().meta.platforms,
        vec!["a".to_string(), "b".to_string(), "c".to_string(), "d".to_string()]
    );
    assert_eq!(n.get("p").unwrap().meta.platforms, f.get("p").unwrap().meta.platforms);
}

#[test]
fn broken_record_defaults() {
    let text = "{\"pkg.broken-thing\": {\"name\":\"x-1.0\",\"pname\":\"x\",\"version\":\"1.0\",\
\"system\":\"x86_64-linux\",\"meta\":{\"broken\":true}}}";
    let all = decode_all(text).unwrap();
    let rec = all.get("pkg.broken-thing").unwrap();
    assert!(rec.meta.broken);
    assert!(rec.meta.available);
    assert_eq!(rec.meta.maintainers, vec![]);
    assert_eq!(rec.meta.platforms, Vec::<String>::new());
}

#[test]
fn empty_query_result_is_distinct() {
    assert!(matches!(decode_query("{}"), Err(NixQueryError::Empty)));
    match decode_query("{ this is not json") {
        Err(NixQueryError::Command(_)) => {},
        other => panic!("malformed text must be a decode failure, got {:?}", other),
    }
}

#[test]
fn query_attaches_attribute_path() {
    let rec = decode_query(TERN).unwrap();
    assert_eq!(rec.attr, Some("nixpkgs.nodePackages.tern".to_string()));
    assert_eq!(rec.name, "node_tern-0.24.2".to_string());
}

#[test]
fn wrong_type_is_hard_failure() {
    // a present field of the wrong JSON type must fail, not default
    let text = "{\"p\": {\"name\":\"x-1.0\",\"pname\":\"x\",\"version\":\"1.0\",\
\"system\":\"s\",\"meta\":{\"broken\":\"yes\"}}}";
    assert!(decode_all(text).is_err());
    let err = decode_all(text).unwrap_err();
    assert_eq!(err.text, text.to_string());
}

#[test]
fn maintainer_shapes() {
    let text = "{\"p\": {\"name\":\"x-1.0\",\"pname\":\"x\",\"version\":\"1.0\",\
\"system\":\"s\",\"meta\":{\"maintainers\":[\"plain name\",\
{\"email\":\"a@b.c\",\"githubId\":7}]}}}";
    let all = decode_all(text).unwrap();
    let ms = &all.get("p").unwrap().meta.maintainers;
    assert_eq!(
        ms,
        &vec![
            Maintainer::Name("plain name".to_string()),
            Maintainer::Info(MaintainerInfo {
                name: None,
                email: "a@b.c".to_string(),
                github: None,
                github_id: Some(7),
                keys: vec![],
            }),
        ]
    );
    // an object without an email matches neither maintainer shape
    let bad = "{\"p\": {\"name\":\"x-1.0\",\"pname\":\"x\",\"version\":\"1.0\",\
\"system\":\"s\",\"meta\":{\"maintainers\":[{\"name\":\"no email\"}]}}}";
    assert!(decode_all(bad).is_err());
}

#[test]
fn nix_path_parsing() {
    assert_eq!(
        NixPath::parse("/some/file.nix:72689"),
        Ok(NixPath { path: "/some/file.nix".to_string(), line: 72689 })
    );
    assert_eq!(NixPath::parse("no-colon-here"), Err(NixPathParseErr::BadSplit));
    assert_eq!(NixPath::parse("file.nix:not-a-number"), Err(NixPathParseErr::BadSplit));
    assert_eq!(NixPath::parse("file.nix:-3"), Err(NixPathParseErr::BadSplit));
    // the line number is positive and nothing may trail it
    assert_eq!(NixPath::parse("file.nix:0"), Err(NixPathParseErr::BadSplit));
    assert_eq!(NixPath::parse("file.nix:5:junk"), Err(NixPathParseErr::BadSplit));
}

#[test]
fn empty_required_field_is_rejected() {
    let text = "{\"p\": {\"name\":\"\",\"pname\":\"x\",\"version\":\"1.0\",\
\"system\":\"s\",\"meta\":{}}}";
    assert!(decode_all(text).is_err());
}
