use torch_lights::client::Address;
use torch_lights::floorplan::{Area, Color, Floorplan, Side, Torch, color_name, side_name};
use torch_lights::upload::UploadItem;

fn plan() -> Floorplan {
    Floorplan {
        mapping: vec![
            (
                Address { ip: [10, 0, 0, 1], port: 6454 },
                Torch { color: Color::Red, side: Side::Left, row: 1 },
            ),
            (
                Address { ip: [10, 0, 0, 2], port: 6454 },
                Torch { color: Color::Red, side: Side::Right, row: 1 },
            ),
            (
                Address { ip: [10, 0, 0, 3], port: 6454 },
                Torch { color: Color::Yellow, side: Side::Left, row: 2 },
            ),
        ],
        areas: vec![Area { color: Color::Red, rows: 2 }],
    }
}

#[test]
fn names_parse_in_any_letter_case() {
    assert_eq!(color_name("red"), Some(Color::Red));
    assert_eq!(color_name("RED"), Some(Color::Red));
    assert_eq!(color_name("Yellow"), Some(Color::Yellow));
    assert_eq!(color_name("mauve"), None);
    assert_eq!(side_name("LeFt"), Some(Side::Left));
    assert_eq!(side_name("right"), Some(Side::Right));
    assert_eq!(side_name("middle"), None);
}

#[test]
fn get_ip_finds_the_mapped_torch() {
    let p = plan();
    assert_eq!(
        p.get_ip("Red", 1, "right"),
        Some(Address { ip: [10, 0, 0, 2], port: 6454 })
    );
    assert_eq!(
        p.get_ip("YELLOW", 2, "left"),
        Some(Address { ip: [10, 0, 0, 3], port: 6454 })
    );
}

#[test]
fn get_ip_fails_on_unknown_names_or_places() {
    let p = plan();
    assert_eq!(p.get_ip("chartreuse", 1, "left"), None);
    assert_eq!(p.get_ip("red", 1, "middle"), None);
    assert_eq!(p.get_ip("red", 9, "left"), None);
}

#[test]
fn upload_items_expose_their_kind() {
    let form = UploadItem::Form { name: "name".to_owned(), value: "fire".to_owned() };
    assert_eq!(form.get_formdata_name(), Some("fire"));
    assert_eq!(form.get_file_data(), None);
    let file = UploadItem::File { data: vec![1, 2, 3] };
    assert_eq!(file.get_formdata_name(), None);
    assert_eq!(file.get_file_data(), Some(&[1u8, 2, 3][..]));
}

#[test]
fn upload_items_classify_by_disposition() {
    // A part naming a file becomes a file item, whatever else it carries.
    let item = UploadItem::begin(Some("upload"), Some("frames.zip")).unwrap();
    assert_eq!(item.get_file_data(), Some(&[][..]));
    // A named part without a file becomes an empty text field.
    let item = UploadItem::begin(Some("name"), None).unwrap();
    assert_eq!(item.get_formdata_name(), Some(""));
    // A part with neither is not an upload item.
    assert!(UploadItem::begin(None, None).is_none());
}

#[test]
fn upload_items_absorb_chunks() {
    let mut file = UploadItem::begin(None, Some("a.zip")).unwrap();
    file.absorb(&vec![1, 2]);
    file.absorb(&vec![3]);
    assert_eq!(file.get_file_data(), Some(&[1u8, 2, 3][..]));
    let mut form = UploadItem::begin(Some("name"), None).unwrap();
    form.absorb(&b"rain".to_vec());
    form.absorb(&vec![0xff]); // not text: dropped
    form.absorb(&b"bow".to_vec());
    assert_eq!(form.get_formdata_name(), Some("rainbow"));
}
