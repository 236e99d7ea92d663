use osm_types::{ElementInfo, Relation, RelationMember, RelationMemberType, Tags};

fn member(member_type: RelationMemberType, reference: i64, role: &str) -> RelationMember {
    RelationMember::new(member_type, reference, String::from(role))
}

#[test]
fn member_new_keeps_what_it_is_given() {
    let m = RelationMember::new(RelationMemberType::Way, -4, String::from("outer"));
    assert_eq!(m.member_type, RelationMemberType::Way);
    assert_eq!(m.reference, -4);
    assert_eq!(m.role, "outer");
    let m = RelationMember::new(RelationMemberType::Node, 0, String::new());
    assert_eq!(m.member_type, RelationMemberType::Node);
    assert_eq!(m.role, "");
}

#[test]
fn member_types_are_three_kinds() {
    assert_ne!(RelationMemberType::Node, RelationMemberType::Way);
    assert_ne!(RelationMemberType::Way, RelationMemberType::Relation);
    assert_ne!(RelationMemberType::Relation, RelationMemberType::Node);
    assert_eq!(RelationMemberType::Relation, RelationMemberType::Relation);
}

#[test]
fn relation_keeps_the_order_of_its_members() {
    let relation = Relation::new(
        ElementInfo::create(3),
        vec![
            member(RelationMemberType::Way, 10, "outer"),
            member(RelationMemberType::Way, 11, "inner"),
            member(RelationMemberType::Way, 10, "inner"),
            member(RelationMemberType::Node, 10, ""),
            member(RelationMemberType::Relation, 3, "subarea"),
            member(RelationMemberType::Way, 10, "outer"),
        ],
    );
    assert_eq!(relation.element_info.id, 3);
    assert!(relation.tags.is_empty());
    assert_eq!(relation.len(), 6);
    let expected = [
        (RelationMemberType::Way, 10, "outer"),
        (RelationMemberType::Way, 11, "inner"),
        (RelationMemberType::Way, 10, "inner"),
        (RelationMemberType::Node, 10, ""),
        (RelationMemberType::Relation, 3, "subarea"),
        (RelationMemberType::Way, 10, "outer"),
    ];
    let mut index = 0;
    while index < relation.len() {
        let m = relation.member(index).unwrap();
        assert_eq!((m.member_type, m.reference, m.role.as_str()), expected[index]);
        let held = &relation.members[index];
        assert_eq!((held.member_type, held.reference, held.role.as_str()), expected[index]);
        index += 1;
    }
    assert!(relation.member(6).is_none());
    assert!(relation.member(usize::MAX).is_none());
}

#[test]
fn relation_without_members() {
    let relation = Relation::new(ElementInfo::create(3), Vec::new());
    assert_eq!(relation.len(), 0);
    assert!(relation.member(0).is_none());
}

#[test]
fn relation_with_tags_replaces_only_the_tags() {
    let mut tags = Tags::new();
    tags.insert(String::from("type"), String::from("multipolygon"));
    let relation = Relation::new(
        ElementInfo::create(3),
        vec![member(RelationMemberType::Way, 10, "outer")],
    )
    .with_tags(tags);
    assert_eq!(relation.element_info.id, 3);
    assert_eq!(relation.len(), 1);
    assert_eq!(relation.tags.get("type"), Some(&String::from("multipolygon")));
}
