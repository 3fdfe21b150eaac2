use vstd::prelude::*;

use crate::ir::{IrDocument, IrPage};
use crate::text::{owned, push_str, str_eq};

verus! {

// ---------------------------------------------------------------------------
// Icon export: which image files each page becomes, per platform
// ---------------------------------------------------------------------------

/// One image to render: the page it shows, the directory and file name it is
/// written to, and its scale in tenths (15 is 1.5x).
#[derive(Debug)]
pub struct ExportImage {
    pub page: usize,
    pub dir: String,
    pub file: String,
    pub scale_tenths: u32,
}

pub ghost struct ExportImageV {
    pub page: int,
    pub dir: Seq<char>,
    pub file: Seq<char>,
    pub scale_tenths: int,
}

pub open spec fn image_view(e: ExportImage) -> ExportImageV {
    ExportImageV { page: e.page as int, dir: e.dir@, file: e.file@, scale_tenths: e.scale_tenths as int }
}

pub open spec fn images_view(s: Seq<ExportImage>) -> Seq<ExportImageV> {
    s.map_values(|e: ExportImage| image_view(e))
}

pub open spec fn img(page: int, dir: Seq<char>, file: Seq<char>, scale_tenths: int) -> ExportImageV {
    ExportImageV { page, dir, file, scale_tenths }
}

/// An iOS image set per page: `NAME.imageset/` with `NAME.png`,
/// `NAME@2x.png` and `NAME@3x.png`.
pub open spec fn ios_page(i: int, name: Seq<char>) -> Seq<ExportImageV> {
    let dir = name + ".imageset"@;
    seq![
        img(i, dir, name + ".png"@, 10),
        img(i, dir, name + "@2x.png"@, 20),
        img(i, dir, name + "@3x.png"@, 30),
    ]
}

/// An Android drawable per page and density: `drawable-mdpi` (1x),
/// `-hdpi` (1.5x), `-xhdpi` (2x), `-xxhdpi` (3x) and `-xxxhdpi` (4x), each
/// holding `NAME.png`.
pub open spec fn android_page(i: int, name: Seq<char>) -> Seq<ExportImageV> {
    let file = name + ".png"@;
    seq![
        img(i, "drawable-mdpi"@, file, 10),
        img(i, "drawable-hdpi"@, file, 15),
        img(i, "drawable-xhdpi"@, file, 20),
        img(i, "drawable-xxhdpi"@, file, 30),
        img(i, "drawable-xxxhdpi"@, file, 40),
    ]
}

/// The images of the first `n` pages, page by page.
pub open spec fn pages_images(pages: Seq<IrPage>, ios: bool, n: nat) -> Seq<ExportImageV>
    decreases n,
{
    if n == 0 {
        Seq::empty()
    } else {
        let i = n - 1;
        pages_images(pages, ios, (n - 1) as nat) + if ios {
            ios_page(i, pages[i].name@)
        } else {
            android_page(i, pages[i].name@)
        }
    }
}

/// The images that exporting a document for a platform writes, or why it
/// cannot: a document without pages has nothing to export, and only `ios`
/// and `android` are known.
pub open spec fn export_spec(pages: Seq<IrPage>, platform: Seq<char>) -> Result<Seq<ExportImageV>, Seq<char>> {
    if pages.len() == 0 {
        Err("no pages found — each page becomes an icon asset"@)
    } else if platform == "ios"@ {
        Ok(pages_images(pages, true, pages.len()))
    } else if platform == "android"@ {
        Ok(pages_images(pages, false, pages.len()))
    } else {
        Err("unsupported platform: '"@ + platform + "' (available: ios, android)"@)
    }
}

fn joined(a: &str, b: &str) -> (r: String)
    ensures
        r@ == a@ + b@,
{
    let mut s = owned(a);
    push_str(&mut s, b);
    s
}

fn push_image(out: &mut Vec<ExportImage>, page: usize, dir: &str, file: &str, scale_tenths: u32)
    ensures
        images_view(final(out)@) == images_view(old(out)@).push(img(page as int, dir@, file@, scale_tenths as int)),
{
    let ghost before = out@;
    out.push(ExportImage { page, dir: owned(dir), file: owned(file), scale_tenths });
    proof {
        assert(images_view(out@) =~= images_view(before).push(img(page as int, dir@, file@, scale_tenths as int)));
    }
}

fn push_page(out: &mut Vec<ExportImage>, i: usize, name: &str, ios: bool)
    ensures
        images_view(final(out)@) == images_view(old(out)@) + if ios {
            ios_page(i as int, name@)
        } else {
            android_page(i as int, name@)
        },
{
    let ghost before = images_view(out@);
    if ios {
        let dir = joined(name, ".imageset");
        let f1 = joined(name, ".png");
        let f2 = joined(name, "@2x.png");
        let f3 = joined(name, "@3x.png");
        push_image(out, i, dir.as_str(), f1.as_str(), 10);
        push_image(out, i, dir.as_str(), f2.as_str(), 20);
        push_image(out, i, dir.as_str(), f3.as_str(), 30);
        proof {
            assert(images_view(out@) =~= before + ios_page(i as int, name@));
        }
    } else {
        let file = joined(name, ".png");
        push_image(out, i, "drawable-mdpi", file.as_str(), 10);
        push_image(out, i, "drawable-hdpi", file.as_str(), 15);
        push_image(out, i, "drawable-xhdpi", file.as_str(), 20);
        push_image(out, i, "drawable-xxhdpi", file.as_str(), 30);
        push_image(out, i, "drawable-xxxhdpi", file.as_str(), 40);
        proof {
            assert(images_view(out@) =~= before + android_page(i as int, name@));
        }
    }
}

/// The image files that exporting the document's pages as icons for
/// `platform` writes, page by page; or the message of why it cannot.
pub fn export_plan(ir: &IrDocument, platform: &str) -> (r: Result<Vec<ExportImage>, String>)
    ensures
        match r {
            Ok(v) => export_spec(ir.pages@, platform@) == Ok::<Seq<ExportImageV>, Seq<char>>(images_view(v@)),
            Err(m) => export_spec(ir.pages@, platform@) == Err::<Seq<ExportImageV>, Seq<char>>(m@),
        },
{
    if ir.pages.len() == 0 {
        return Err(owned("no pages found — each page becomes an icon asset"));
    }
    let ios = str_eq(platform, "ios");
    if !ios && !str_eq(platform, "android") {
        let mut m = owned("unsupported platform: '");
        push_str(&mut m, platform);
        push_str(&mut m, "' (available: ios, android)");
        return Err(m);
    }
    let mut out: Vec<ExportImage> = Vec::new();
    let mut i: usize = 0;
    while i < ir.pages.len()
        invariant
            i <= ir.pages@.len(),
            images_view(out@) == pages_images(ir.pages@, ios, i as nat),
        decreases ir.pages@.len() - i,
    {
        push_page(&mut out, i, ir.pages[i].name.as_str(), ios);
        i = i + 1;
    }
    Ok(out)
}

// ---------------------------------------------------------------------------
// The listing of an iOS image set
// ---------------------------------------------------------------------------

/// One image that an iOS image set's `Contents.json` lists: its file, the
/// devices it is for, and its scale.
#[derive(Debug)]
pub struct ContentsImage {
    pub filename: String,
    pub idiom: String,
    pub scale: String,
}

/// What an iOS image set's `Contents.json` holds: its images, and the
/// author and version of the listing.
#[derive(Debug)]
pub struct ImagesetContents {
    pub images: Vec<ContentsImage>,
    pub author: String,
    pub version: u32,
}

pub ghost struct ContentsImageV {
    pub filename: Seq<char>,
    pub idiom: Seq<char>,
    pub scale: Seq<char>,
}

pub open spec fn contents_image_view(c: ContentsImage) -> ContentsImageV {
    ContentsImageV { filename: c.filename@, idiom: c.idiom@, scale: c.scale@ }
}

pub open spec fn contents_images_view(s: Seq<ContentsImage>) -> Seq<ContentsImageV> {
    s.map_values(|c: ContentsImage| contents_image_view(c))
}

/// An image for every device at a scale.
pub open spec fn universal(filename: Seq<char>, scale: Seq<char>) -> ContentsImageV {
    ContentsImageV { filename, idiom: "universal"@, scale }
}

/// The images that the image set of a page named `name` lists: `NAME.png`
/// at 1x, `NAME@2x.png` at 2x and `NAME@3x.png` at 3x.
pub open spec fn ios_contents_spec(name: Seq<char>) -> Seq<ContentsImageV> {
    seq![
        universal(name + ".png"@, "1x"@),
        universal(name + "@2x.png"@, "2x"@),
        universal(name + "@3x.png"@, "3x"@),
    ]
}

/// The author that an image set's listing names.
pub open spec fn contents_author() -> Seq<char> {
    "pastel"@
}

/// The version of an image set's listing.
pub open spec fn contents_version() -> int {
    1
}

/// The listing written into the image set of a page named `name`.
pub fn ios_contents(name: &str) -> (r: ImagesetContents)
    ensures
        contents_images_view(r.images@) == ios_contents_spec(name@),
        r.author@ == contents_author(),
        r.version == contents_version(),
{
    let mut images: Vec<ContentsImage> = Vec::new();
    images.push(ContentsImage { filename: joined(name, ".png"), idiom: owned("universal"), scale: owned("1x") });
    images.push(ContentsImage { filename: joined(name, "@2x.png"), idiom: owned("universal"), scale: owned("2x") });
    images.push(ContentsImage { filename: joined(name, "@3x.png"), idiom: owned("universal"), scale: owned("3x") });
    proof {
        assert(contents_images_view(images@) =~= ios_contents_spec(name@));
    }
    ImagesetContents { images, author: owned("pastel"), version: 1 }
}

/// The listing of a page's image set names exactly the files that the
/// export writes for that page, in the same order, each at its scale.
pub proof fn law_contents_lists_the_images(i: int, name: Seq<char>)
    ensures
        ios_contents_spec(name).len() == ios_page(i, name).len(),
        forall|k: int|
            0 <= k < 3 ==> #[trigger] ios_contents_spec(name)[k].filename == ios_page(i, name)[k].file
                && ios_page(i, name)[k].scale_tenths == 10 * (k + 1),
{
}

} // verus!
