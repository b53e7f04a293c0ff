use clipit::schema::{missing_columns, AddedColumn};

fn names(list: &[&str]) -> Vec<String> {
    list.iter().map(|s| s.to_string()).collect()
}

#[test]
fn a_table_of_the_first_layout_lacks_every_added_column() {
    let existing =
        names(&["id", "created_at", "kind", "text", "fingerprint", "pinned", "deleted"]);
    assert_eq!(
        missing_columns(&existing),
        vec![
            AddedColumn::ImageRgba,
            AddedColumn::ImageWidth,
            AddedColumn::ImageHeight,
            AddedColumn::Favorite
        ]
    );
}

#[test]
fn only_the_columns_that_are_not_there_are_added() {
    let existing = names(&["id", "image_width", "favorite"]);
    assert_eq!(missing_columns(&existing), vec![AddedColumn::ImageRgba, AddedColumn::ImageHeight]);
}

#[test]
fn a_table_that_is_up_to_date_lacks_nothing() {
    let mut existing = names(&["id", "kind"]);
    for column in missing_columns(&existing) {
        existing.push(column.name().to_string());
    }
    assert_eq!(missing_columns(&existing), Vec::<AddedColumn>::new());
}

#[test]
fn column_names_are_taken_literally() {
    let existing = names(&["Favorite", " image_rgba", "image_width ", "IMAGE_HEIGHT"]);
    assert_eq!(missing_columns(&existing).len(), 4);
    assert_eq!(AddedColumn::ImageRgba.name(), "image_rgba");
    assert_eq!(AddedColumn::ImageWidth.name(), "image_width");
    assert_eq!(AddedColumn::ImageHeight.name(), "image_height");
    assert_eq!(AddedColumn::Favorite.name(), "favorite");
}
