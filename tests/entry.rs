use ldap_bridge::entry::{entry_from_tag, BerTag};

fn prim(b: &[u8]) -> BerTag {
    BerTag::Primitive { id: 4, bytes: b.to_vec() }
}

fn cons(id: u64, children: Vec<BerTag>) -> BerTag {
    BerTag::Constructed { id, children }
}

fn attr(name: &[u8], values: Vec<&[u8]>) -> BerTag {
    cons(16, vec![prim(name), cons(17, values.into_iter().map(prim).collect())])
}

#[test]
fn entry_reads_dn_and_text_attributes() {
    let t = cons(
        4,
        vec![
            prim(b"uid=alice,dc=x"),
            cons(
                16,
                vec![
                    attr(b"cn", vec![b"Alice"]),
                    attr(b"jpegPhoto", vec![&[0xff, 0xd8]]),
                    attr(b"memberOf", vec![b"ops", b"dev"]),
                ],
            ),
        ],
    );
    let e = entry_from_tag(&t).unwrap();
    assert_eq!(e.dn, "uid=alice,dc=x");
    assert_eq!(
        e.attrs,
        vec![
            ("cn".to_string(), vec!["Alice".to_string()]),
            ("memberOf".to_string(), vec!["ops".to_string(), "dev".to_string()]),
        ]
    );
}

#[test]
fn malformed_entries_are_refused() {
    // Wrong tag number.
    assert!(entry_from_tag(&cons(5, vec![prim(b"dn"), cons(16, vec![])])).is_none());
    // Missing attribute list.
    assert!(entry_from_tag(&cons(4, vec![prim(b"dn")])).is_none());
    // DN that is not UTF-8.
    assert!(entry_from_tag(&cons(4, vec![prim(&[0xff]), cons(16, vec![])])).is_none());
    // A value that is not primitive.
    let bad = cons(16, vec![prim(b"cn"), cons(17, vec![cons(4, vec![])])]);
    assert!(entry_from_tag(&cons(4, vec![prim(b"dn"), cons(16, vec![bad])])).is_none());
    // A primitive where the entry should be constructed.
    assert!(entry_from_tag(&prim(b"x")).is_none());
}
