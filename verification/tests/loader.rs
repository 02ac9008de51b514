use pinnacle::devpath::NEXT_LOADER_PATH;
use pinnacle::loader::{
    begin_search, load_next, loader_message, loader_path_on_volume, order_volumes, Search,
};
use pinnacle::log::Level;
use pinnacle::status::{Status, NOT_FOUND, SECURITY_VIOLATION};

#[test]
fn the_own_volume_is_tried_last() {
    assert_eq!(order_volumes(&vec![3, 1, 2], Some(3)), vec![1, 2, 3]);
    assert_eq!(order_volumes(&vec![3, 1, 2], Some(1)), vec![3, 2, 1]);
    assert_eq!(order_volumes(&vec![3, 1, 2], Some(7)), vec![3, 1, 2]);
    assert_eq!(order_volumes(&vec![3, 1, 2], None), vec![3, 1, 2]);
    assert_eq!(order_volumes(&vec![], Some(1)), Vec::<u64>::new());
}

#[test]
fn paths_end_in_the_next_loader() {
    assert_eq!(NEXT_LOADER_PATH, "\\EFI\\boot\\BOOTX64.efi");
    assert_eq!(loader_path_on_volume("HD(1)"), "HD(1)\\EFI\\boot\\BOOTX64.efi");
    assert_eq!(loader_message("<", ">"), "<\\EFI\\boot\\BOOTX64.efi>");
}

fn no_loader(search: Search) -> bool {
    match search {
        Search::Failed(fatal) => {
            fatal.status == Status(NOT_FOUND)
                && fatal.message
                    == "no usable \\EFI\\boot\\BOOTX64.efi found, is the boot loader installed and signed?"
        }
        _ => false,
    }
}

#[test]
fn without_volumes_the_search_fails() {
    assert!(no_loader(begin_search(&vec![], Some(1))));
}

#[test]
fn the_first_image_that_loads_ends_the_search() {
    let (volumes, at) = match begin_search(&vec![5, 6, 7], Some(5)) {
        Search::Try { volumes, at } => (volumes, at),
        _ => panic!("there are volumes"),
    };
    assert_eq!((volumes.clone(), at), (vec![6, 7, 5], 0));

    let attempt = load_next(volumes, at, "HD(6)", Err(Status(NOT_FOUND)));
    assert!(attempt.record.is_none());
    let (volumes, at) = match attempt.search {
        Search::Try { volumes, at } => (volumes, at),
        _ => panic!("two volumes are left"),
    };
    assert_eq!(at, 1);

    let attempt = load_next(volumes, at, "HD(7)", Err(Status(SECURITY_VIOLATION)));
    let line = attempt.record.unwrap();
    assert_eq!(line.level, Level::Error);
    assert_eq!(
        line.message,
        "HD(7)\\EFI\\boot\\BOOTX64.efi load failed: UEFI Error SECURITY_VIOLATION: ()"
    );
    let (volumes, at) = match attempt.search {
        Search::Try { volumes, at } => (volumes, at),
        _ => panic!("one volume is left"),
    };
    assert_eq!(volumes[at], 5);

    let attempt = load_next(volumes, at, "HD(5)", Ok(99));
    let line = attempt.record.unwrap();
    assert_eq!(line.level, Level::Info);
    assert_eq!(line.message, "loaded HD(5)\\EFI\\boot\\BOOTX64.efi");
    assert!(matches!(attempt.search, Search::Loaded(99)));
}

#[test]
fn the_search_fails_behind_the_last_volume() {
    let attempt = load_next(vec![4], 0, "", Err(Status(NOT_FOUND)));
    assert!(no_loader(attempt.search));
}
