use nix_query::json::parse_json;
use nix_query::nix::{decode_license, decode_nix_info, FullLicense, License};
use nix_query::render::write_licenses;
use nix_query::text::{i64_to_dec, u64_to_dec};

fn render_license(text: &str) -> String {
    let v = parse_json(text).expect("well-formed JSON");
    let l = decode_license(&v).expect("license decodes");
    l.console_fmt().render()
}

#[test]
fn free_license_without_spdx_or_url() {
    let r = render_license(
        "{\"fullName\":\"GNU General Public License v3.0\",\"shortName\":\"gpl3\",\"free\":true}",
    );
    assert_eq!("gpl3 (GNU General Public License v3.0)", r);
}

#[test]
fn unfree_license_with_both_names() {
    let r = render_license("{\"fullName\":\"Acme EULA\",\"shortName\":\"acme-eula\",\"free\":false}");
    assert!(r.contains("unfree"));
    assert!(r.contains("Acme EULA"));
    assert!(r.contains("acme-eula"));
    assert!(!r.contains("http"));
    assert_eq!("Acme EULA (unfree; acme-eula)", r);
}

#[test]
fn free_license_prefers_spdx_id() {
    let r = render_license(
        "{\"fullName\":\"X License\",\"shortName\":\"x\",\"spdxId\":\"X-1.0\",\
\"url\":\"https://example.com/x\",\"free\":true}",
    );
    assert_eq!("X-1.0 https://example.com/x", r);
}

#[test]
fn free_license_with_url_skips_full_name() {
    let r = render_license(
        "{\"fullName\":\"X License\",\"shortName\":\"x\",\"url\":\"https://example.com/x\"}",
    );
    assert_eq!("x https://example.com/x", r);
}

#[test]
fn plain_and_named_and_url_licenses() {
    assert_eq!("MIT", render_license("\"MIT\""));
    assert_eq!("Only a name", render_license("{\"fullName\":\"Only a name\"}"));
    assert_eq!(
        "https://example.com/license",
        render_license("{\"url\":\"https://example.com/license\"}")
    );
}

#[test]
fn license_list_renders_one_per_line() {
    let a = FullLicense {
        full_name: "A License".to_string(),
        short_name: "a".to_string(),
        spdx_id: None,
        url: None,
        free: true,
    };
    let b = FullLicense {
        full_name: "B License".to_string(),
        short_name: "b".to_string(),
        spdx_id: None,
        url: None,
        free: true,
    };
    let both = vec![a.clone(), b];
    assert_eq!(
        "a (A License)\n         b (B License)",
        write_licenses(both.as_slice())
    );
    assert_eq!("a (A License)", write_licenses(vec![a].as_slice()));
    assert_eq!("", write_licenses(Vec::<FullLicense>::new().as_slice()));
}

#[test]
fn record_rendering_field_order_and_omission() {
    let text = "{\"name\":\"hello-2.10\",\"pname\":\"hello\",\"version\":\"2.10\",\
\"system\":\"x86_64-linux\",\"meta\":{\
\"broken\":true,\"available\":false,\"priority\":-7,\
\"homepage\":\"https://example.com/hello\",\
\"description\":\"A friendly greeter\",\
\"longDescription\":\"First line\\nsecond line\\nthird line\",\
\"license\":\"MIT\",\
\"position\":\"/pkgs/hello.nix:12\"}}";
    let v = parse_json(text).expect("well-formed JSON");
    let rec = decode_nix_info(&v).expect("record decodes");
    let rendered = rec.console_fmt().render();
    let expected = [
        "name: hello-2.10",
        "broken: true",
        "available: false",
        "priority: -7",
        "homepage: https://example.com/hello",
        "description: A friendly greeter",
        "long desc.: First line",
        "            second line",
        "            third line",
        "license: MIT",
        "defined in: /pkgs/hello.nix line 12",
    ]
    .join("\n");
    assert_eq!(format!("{}\n", expected), rendered);
}

#[test]
fn minimal_record_renders_name_only() {
    let text = "{\"name\":\"x-1.0\",\"pname\":\"x\",\"version\":\"1.0\",\
\"system\":\"s\",\"meta\":{}}";
    let v = parse_json(text).expect("well-formed JSON");
    let rec = decode_nix_info(&v).expect("record decodes");
    assert_eq!("name: x-1.0\n", rec.console_fmt().render());
}

#[test]
fn attr_line_comes_first_when_present() {
    let text = "{\"nixpkgs.x\": {\"name\":\"x-1.0\",\"pname\":\"x\",\"version\":\"1.0\",\
\"system\":\"s\",\"meta\":{}}}";
    let rec = nix_query::nix::decode_query(text).unwrap();
    assert_eq!("attr: nixpkgs.x\nname: x-1.0\n", rec.console_fmt().render());
}

#[test]
fn decimal_rendering() {
    assert_eq!("0", u64_to_dec(0));
    assert_eq!("72689", u64_to_dec(72689));
    assert_eq!("18446744073709551615", u64_to_dec(u64::MAX));
    assert_eq!("-7", i64_to_dec(-7));
    assert_eq!("42", i64_to_dec(42));
    assert_eq!("-9223372036854775808", i64_to_dec(i64::MIN));
}

#[test]
fn unfree_placeholder_names_are_suppressed() {
    let r = render_license("{\"fullName\":\"Unfree\",\"shortName\":\"unfree\",\"free\":false}");
    assert_eq!("unfree", r);
    let r2 = render_license(
        "{\"fullName\":\"Unfree\",\"shortName\":\"acme\",\"free\":false,\
\"url\":\"https://example.com/eula\"}",
    );
    assert_eq!("unfree (acme) https://example.com/eula", r2);
}

#[test]
fn free_and_unfree_sub_renderers() {
    let l = FullLicense {
        full_name: "X License".to_string(),
        short_name: "x".to_string(),
        spdx_id: None,
        url: None,
        free: true,
    };
    assert_eq!("x (X License)", l.console_fmt().fmt_free());
    assert_eq!("X License (unfree; x)", l.console_fmt().fmt_unfree());
}

#[test]
fn long_description_with_crlf_line_endings() {
    let text = "{\"name\":\"x-1.0\",\"pname\":\"x\",\"version\":\"1.0\",\
\"system\":\"s\",\"meta\":{\"longDescription\":\"First\\r\\nsecond\\r\\nthird\"}}";
    let v = parse_json(text).expect("well-formed JSON");
    let rec = decode_nix_info(&v).expect("record decodes");
    assert_eq!(
        "name: x-1.0\nlong desc.: First\n            second\n            third\n",
        rec.console_fmt().render()
    );
}
