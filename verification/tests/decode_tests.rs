use dockboard::decode::{decode_line, decode_output};
use dockboard::record::ContainerRecord;

fn full_line(id: &str) -> String {
    format!(
        "{{\"ID\":\"{}\",\"Image\":\"nginx\",\"Command\":\"nginx -g\",\"CreatedAt\":\"2024-01-01\",\"Status\":\"Up 2 hours\",\"Ports\":\"80/tcp\",\"Names\":\"web\"}}",
        id
    )
}

#[test]
fn decode_valid_line() {
    let line = "{\"ID\":\"abc123\",\"Image\":\"nginx:latest\",\"Command\":\"\\\"/docker-entrypoint.sh\\\"\",\"CreatedAt\":\"2024-01-01 10:00:00 +0000 UTC\",\"Status\":\"Up 2 hours\",\"Ports\":\"0.0.0.0:8080->80/tcp\",\"Names\":\"web\"}";
    let rec: ContainerRecord = decode_line(line).expect("line should decode");
    assert_eq!(rec.id, "abc123");
    assert_eq!(rec.image, "nginx:latest");
    assert_eq!(rec.command, "\"/docker-entrypoint.sh\"");
    assert_eq!(rec.created_at, "2024-01-01 10:00:00 +0000 UTC");
    assert_eq!(rec.status, "Up 2 hours");
    assert_eq!(rec.ports, "0.0.0.0:8080->80/tcp");
    assert_eq!(rec.names, "web");
}

#[test]
fn decode_resolves_escapes() {
    let line = "{\"ID\":\"a1\",\"Image\":\"img\",\"Command\":\"sh -c \\\"a \\u0026\\u0026 b\\\"\",\"CreatedAt\":\"now\",\"Status\":\"Up\",\"Ports\":\"\",\"Names\":\"tab\\there\\\\done\"}";
    let rec = decode_line(line).expect("line should decode");
    assert_eq!(rec.command, "sh -c \"a && b\"");
    assert_eq!(rec.names, "tab\there\\done");
}

#[test]
fn decode_tolerates_whitespace_and_extra_fields() {
    let line = " { \"ID\" : \"a1\" , \"Labels\" : \"x=y\" , \"Image\" : \"img\" , \"Command\" : \"c\" , \"CreatedAt\" : \"t\" , \"Status\" : \"s\" , \"Ports\" : \"\" , \"Names\" : \"n\" } ";
    let rec = decode_line(line).expect("line should decode");
    assert_eq!(rec.id, "a1");
    assert_eq!(rec.names, "n");
}

#[test]
fn decode_takes_first_occurrence_of_a_field() {
    let line = "{\"ID\":\"first\",\"ID\":\"second\",\"Image\":\"i\",\"Command\":\"c\",\"CreatedAt\":\"t\",\"Status\":\"s\",\"Ports\":\"p\",\"Names\":\"n\"}";
    let rec = decode_line(line).expect("line should decode");
    assert_eq!(rec.id, "first");
}

#[test]
fn decode_rejects_malformed_lines() {
    // Not a record object at all.
    assert!(decode_line("").is_none());
    assert!(decode_line("total 12").is_none());
    // Unterminated object.
    assert!(decode_line("{\"ID\":\"a\"").is_none());
    // Missing schema fields.
    assert!(decode_line("{\"ID\":\"a\"}").is_none());
    // Empty identifier.
    assert!(decode_line(&full_line("")).is_none());
    // Unquoted value.
    assert!(decode_line("{\"ID\":1,\"Image\":\"i\",\"Command\":\"c\",\"CreatedAt\":\"t\",\"Status\":\"s\",\"Ports\":\"p\",\"Names\":\"n\"}").is_none());
    // Unknown escape.
    assert!(decode_line(&full_line("a\\qb")).is_none());
    // Unicode escape beyond the ASCII range.
    assert!(decode_line(&full_line("caf\\u00e9")).is_none());
    // Trailing content after the record.
    let mut trailing = full_line("abc");
    trailing.push_str(" x");
    assert!(decode_line(&trailing).is_none());
}

#[test]
fn malformed_lines_do_not_disturb_their_neighbours() {
    let blob = format!(
        "{}\nnot json at all\n{}\n{{\"ID\":\"x\"}}\n{}",
        full_line("one"),
        full_line("two"),
        full_line("three")
    );
    let recs = decode_output(&blob);
    assert_eq!(recs.len(), 3);
    assert_eq!(recs[0].id, "one");
    assert_eq!(recs[1].id, "two");
    assert_eq!(recs[2].id, "three");
}

#[test]
fn decode_preserves_source_order() {
    let blob = format!("{}\n{}", full_line("abc123"), full_line("def456"));
    let recs = decode_output(&blob);
    assert_eq!(recs.len(), 2);
    assert_eq!(recs[0].id, "abc123");
    assert_eq!(recs[1].id, "def456");
}

#[test]
fn zero_valid_lines_yield_an_empty_list() {
    assert!(decode_output("").is_empty());
    assert!(decode_output("\n\n").is_empty());
    assert!(decode_output("junk\nmore junk\n").is_empty());
}

#[test]
fn decoded_identifiers_are_never_empty() {
    let blob = format!("{}\n{}", full_line(""), full_line("kept"));
    let recs = decode_output(&blob);
    assert_eq!(recs.len(), 1);
    assert_eq!(recs[0].id, "kept");
}
