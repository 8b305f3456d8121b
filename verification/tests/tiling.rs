use pixelrag::embedding::{tile_image, EncoderEmbedder};
use pixelrag::encoder::PixelFormat;
use pixelrag::error::Error;
use pixelrag::tile::{TileSpec, Tiler};

#[test]
fn default_spec_is_512_square() {
    let t = Tiler::default();
    let s = t.spec();
    assert_eq!((s.tile_width, s.tile_height, s.overlap), (512, 512, 0));
    assert_eq!(Tiler::new(TileSpec { tile_width: 2, tile_height: 3, overlap: 1 }).spec().overlap, 1);
}

#[test]
fn pages_are_cut_into_windows() {
    let t = Tiler::new(TileSpec { tile_width: 2, tile_height: 2, overlap: 0 });
    let tiles = t.tile_document("doc", &[vec![1, 2, 3, 4, 5, 6, 7, 8, 9], vec![]]).unwrap();
    assert_eq!(tiles.len(), 4);
    assert_eq!(tiles[0].image, vec![1, 2, 3, 4]);
    assert_eq!(tiles[1].image, vec![5, 6, 7, 8]);
    assert_eq!(tiles[2].image, vec![9]);
    assert_eq!(tiles[3].image, Vec::<u8>::new());
    assert_eq!((tiles[2].bounds.x, tiles[2].bounds.y, tiles[2].bounds.width, tiles[2].bounds.height), (0, 4, 2, 2));
    assert_eq!((tiles[2].metadata.page, tiles[2].metadata.tile_index), (0, 2));
    assert_eq!((tiles[3].metadata.page, tiles[3].metadata.tile_index), (1, 0));
    assert_eq!(tiles[3].metadata.doc_id, "doc");
    // Joining the tiles of a page gives the page back.
    let joined: Vec<u8> = tiles[..3].iter().flat_map(|x| x.image.clone()).collect();
    assert_eq!(joined, (1..=9).collect::<Vec<u8>>());
}

#[test]
fn zero_sized_spec_is_refused() {
    let t = Tiler::new(TileSpec { tile_width: 0, tile_height: 4, overlap: 0 });
    match t.tile_document("d", &[vec![1]]) {
        Err(Error::Tile(m)) => assert_eq!(m, "TileSpec width/height must be > 0"),
        other => panic!("unexpected {:?}", other.map(|v| v.len())),
    }
}

#[test]
fn text_is_cut_into_byte_runs() {
    let t = Tiler::default();
    let tiles = t.tile_text("d", "abcdefg", 3).unwrap();
    let images: Vec<Vec<u8>> = tiles.iter().map(|x| x.image.clone()).collect();
    assert_eq!(images, vec![b"abc".to_vec(), b"def".to_vec(), b"g".to_vec()]);
    assert_eq!(tiles[1].bounds.y, 512);
    assert_eq!(t.tile_text("d", "", 3).unwrap().len(), 1);
    match t.tile_text("d", "x", 0) {
        Err(Error::Tile(m)) => assert_eq!(m, "chars_per_tile must be > 0"),
        other => panic!("unexpected {:?}", other.map(|v| v.len())),
    }
    // Multi-byte characters count by their UTF-8 bytes.
    assert_eq!(t.tile_text("d", "é", 1).unwrap().len(), 2);
}

#[test]
fn tiles_become_gray_rows() {
    let t = Tiler::default();
    let tiles = t.tile_text("d", "hello", 10).unwrap();
    let img = tile_image(&tiles[0]);
    assert_eq!(img.pixels, b"hello".to_vec());
    assert_eq!((img.width, img.height, img.format), (5, 1, PixelFormat::Gray8));
    let e = EncoderEmbedder::new(7u8);
    assert_eq!(*e.backend(), 7);
}

#[test]
fn error_messages() {
    assert_eq!(Error::Tile("x".into()).message(), "pixelrag tile error: x");
    assert_eq!(Error::Config("c".into()).message(), "pixelrag config error: c");
    assert_eq!(Error::Io("i".into()).message(), "pixelrag io error: i");
}

#[test]
fn adjacent_tiles_share_the_overlap() {
    // 2-byte rows, 2-row tiles, 1 shared row: windows of 4 bytes every 2 bytes.
    let t = Tiler::new(TileSpec { tile_width: 2, tile_height: 2, overlap: 1 });
    let tiles = t.tile_document("doc", &[vec![1, 2, 3, 4, 5]]).unwrap();
    assert_eq!(tiles.len(), 2);
    assert_eq!(tiles[0].image, vec![1, 2, 3, 4]);
    assert_eq!(tiles[1].image, vec![3, 4, 5]);
    assert_eq!((tiles[0].bounds.y, tiles[1].bounds.y), (0, 1));
    assert_eq!(tiles[1].bounds.height, 2);
    // The next tile starts with the previous tile's last row.
    assert_eq!(tiles[1].image[..2], tiles[0].image[2..]);

    let t = Tiler::new(TileSpec { tile_width: 1, tile_height: 3, overlap: 1 });
    let tiles = t.tile_document("doc", &[(1..=7).collect::<Vec<u8>>()]).unwrap();
    let images: Vec<Vec<u8>> = tiles.iter().map(|x| x.image.clone()).collect();
    assert_eq!(images, vec![vec![1, 2, 3], vec![3, 4, 5], vec![5, 6, 7]]);
    let ys: Vec<u32> = tiles.iter().map(|x| x.bounds.y).collect();
    assert_eq!(ys, vec![0, 2, 4]);
    // A page that fits one window yields a single tile whatever the overlap.
    assert_eq!(t.tile_document("doc", &[vec![1, 2, 3]]).unwrap().len(), 1);
}

#[test]
fn overlap_of_a_whole_tile_is_refused() {
    let t = Tiler::new(TileSpec { tile_width: 2, tile_height: 2, overlap: 2 });
    assert!(t.pages_fit(&[vec![1, 2, 3]]));
    match t.tile_document("d", &[vec![1, 2, 3]]) {
        Err(Error::Tile(m)) => assert_eq!(m, "TileSpec overlap must be smaller than tile_height"),
        other => panic!("unexpected {:?}", other.map(|v| v.len())),
    }
}

#[test]
fn huge_text_window_is_one_tile() {
    let t = Tiler::default();
    assert!(t.text_fits("abc", usize::MAX));
    let tiles = t.tile_text("d", "abc", usize::MAX).unwrap();
    assert_eq!(tiles.len(), 1);
    assert_eq!(tiles[0].image, b"abc".to_vec());
}
