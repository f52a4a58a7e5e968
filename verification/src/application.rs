//! The application controller: it owns the catalog, the transform
//! configuration and the accumulated errors, and exposes the operations
//! the surrounding layer drives.
//!
//! Everything that touches the filesystem stays outside: a scan hands in
//! plain entries, a transform run hands in decode outcomes and takes
//! write jobs back.

use vstd::prelude::*;
use crate::error::TransformationError;
use crate::format::{extension_of_kind, Format, ImageKind};
use crate::paths::Paths;
use crate::picture::{built_path, Metadata, Picture};
use crate::raster::Raster;
use crate::resize::Resize;
use crate::rotate::Rotate;
use crate::sort::{ssort, Sort};
use crate::text::{extension_of, file_name_of, lower_seq, stem_of, extension_str, file_name_str, eq_lower, with_extension};

verus! {

/// What a directory scan observed for one entry: its path and, when
/// extraction succeeded, its metadata.
#[derive(Debug, Clone, PartialEq)]
pub struct ScanEntry {
    pub path: String,
    pub metadata: Option<Metadata>,
}

/// Does this path carry an image extension of the allow-list,
/// case-insensitively?
pub open spec fn is_image_path(p: Seq<char>) -> bool {
    match extension_of(file_name_of(p)) {
        Some(e) => {
            let l = lower_seq(e);
            l == "jpg"@ || l == "png"@ || l == "jpeg"@ || l == "webp"@ || l == "avif"@ || l
                == "tiff"@
        },
        None => false,
    }
}

/// The entries of `s` that carry an image extension, in order.
pub open spec fn image_entries(s: Seq<ScanEntry>) -> Seq<ScanEntry>
    decreases s.len(),
{
    if s.len() == 0 {
        s
    } else if is_image_path(s.last().path@) {
        image_entries(s.drop_last()).push(s.last())
    } else {
        image_entries(s.drop_last())
    }
}

/// The metadata a catalog entry gets: what the scan observed, or the
/// zeroed record when extraction failed.
pub open spec fn entry_metadata(e: ScanEntry) -> Metadata {
    match e.metadata {
        Some(m) => m,
        None => Metadata::spec_default(),
    }
}

/// `c` is the catalog built from `entries`: one fresh, selected picture
/// per image entry, in scan order.
pub open spec fn catalog_matches(entries: Seq<ScanEntry>, c: Seq<Picture>) -> bool {
    let k = image_entries(entries);
    c.len() == k.len() && forall|i: int|
        0 <= i < c.len() ==> (#[trigger] c[i]).path == k[i].path && c[i].name.source_name@
            == stem_of(file_name_of(k[i].path@)) && c[i].name.prefix@ == Seq::<char>::empty()
            && c[i].name.suffix@ == Seq::<char>::empty() && c[i].is_selected
            && !c[i].is_in_process && !c[i].is_processed && c[i].metadata == entry_metadata(k[i])
}

/// Every entry the filter keeps carries an image extension.
pub proof fn lemma_image_entries_images(s: Seq<ScanEntry>)
    ensures
        forall|i: int|
            0 <= i < image_entries(s).len() ==> is_image_path(
                #[trigger] image_entries(s)[i].path@,
            ),
    decreases s.len(),
{
    if s.len() > 0 {
        lemma_image_entries_images(s.drop_last());
    }
}

/// Whatever a scan built and however it is then sorted, every picture
/// of the catalog carries an image extension of the allow-list: no
/// other file appears.
pub proof fn lemma_catalog_all_images(
    entries: Seq<ScanEntry>,
    c: Seq<Picture>,
    f: crate::sort::SortType,
    o: crate::sort::SortOrder,
)
    requires
        catalog_matches(entries, c),
    ensures
        forall|i: int| 0 <= i < c.len() ==> is_image_path((#[trigger] c[i]).path@),
        forall|i: int|
            0 <= i < ssort(c, f, o).len() ==> is_image_path((#[trigger] ssort(c, f, o)[i]).path@),
{
    lemma_image_entries_images(entries);
    crate::sort::lemma_ssort_contains(c, f, o);
    crate::sort::lemma_ssort_multiset(c, f, o);
    broadcast use vstd::seq_lib::group_to_multiset_ensures;

    let t = ssort(c, f, o);
    assert forall|i: int| 0 <= i < t.len() implies is_image_path((#[trigger] t[i]).path@) by {
        assert(t.contains(t[i]));
        assert(c.contains(t[i]));
        let j = choose|j: int| 0 <= j < c.len() && c[j] == t[i];
        assert(is_image_path(c[j].path@));
    }
}

/// The whole application state: paths, configuration, catalog, errors
/// and the run-state flags.
#[derive(Debug, Clone, PartialEq)]
pub struct Application {
    pub paths: Paths,
    pub resize: Resize,
    pub format: Format,
    pub rotate: Rotate,
    pub sort: Sort,
    pub pictures: Vec<Picture>,
    pub errors: Vec<TransformationError>,
    pub is_in_process: bool,
    pub is_processed: bool,
}

impl Default for Application {
    /// No paths, no catalog, every configuration at its default.
    fn default() -> (r: Self)
        ensures
            r.paths.source@ == Seq::<char>::empty(),
            r.paths.destination@ == Seq::<char>::empty(),
            !r.paths.source_is_dir,
            !r.paths.destination_is_dir,
            r.resize.resize_type is None,
            r.format.image is None,
            r.format.quality.value == 75,
            r.format.speed.value == 7,
            r.rotate.angle == crate::rotate::Angle::Zero,
            r.sort.field == crate::sort::SortType::Name,
            r.sort.order == crate::sort::SortOrder::Asc,
            r.pictures@ == Seq::<Picture>::empty(),
            r.errors@ == Seq::<TransformationError>::empty(),
            !r.is_in_process,
            !r.is_processed,
    {
        Application {
            paths: Paths::default(),
            resize: Resize::default(),
            format: Format::default(),
            rotate: Rotate { angle: crate::rotate::Angle::Zero },
            sort: Sort::default(),
            pictures: Vec::new(),
            errors: Vec::new(),
            is_in_process: false,
            is_processed: false,
        }
    }
}

impl Application {
    /// Does this path carry an image extension of the allow-list?
    pub fn is_image(path: &String) -> (r: bool)
        ensures
            r == is_image_path(path@),
    {
        match extension_str(file_name_str(path.as_str())) {
            Some(e) => eq_lower(e, "jpg") || eq_lower(e, "png") || eq_lower(e, "jpeg") || eq_lower(
                e,
                "webp",
            ) || eq_lower(e, "avif") || eq_lower(e, "tiff"),
            None => false,
        }
    }

    /// Build the catalog from scanned entries: keep the image files, give
    /// each a fresh selected picture, degrade missing metadata to zeroes.
    pub fn build_catalog(entries: Vec<ScanEntry>) -> (r: Vec<Picture>)
        ensures
            catalog_matches(entries@, r@),
            forall|i: int| 0 <= i < r@.len() ==> is_image_path((#[trigger] r@[i]).path@),
    {
        proof {
            lemma_image_entries_images(entries@);
        }
        let ghost orig = entries@;
        let mut entries = entries;
        let mut out: Vec<Picture> = Vec::new();
        proof {
            assert(orig.take(0) =~= Seq::<ScanEntry>::empty());
            assert(catalog_matches(orig.take(0), out@));
        }
        while entries.len() > 0
            invariant
                entries@.len() <= orig.len(),
                entries@ == orig.skip(orig.len() - entries@.len()),
                catalog_matches(orig.take(orig.len() - entries@.len()), out@),
            decreases entries@.len(),
        {
            let ghost k: int = orig.len() - entries@.len();
            proof {
                assert(entries@ == orig.skip(k));
                assert(orig.skip(k)[0] == orig[k]);
            }
            let e = entries.remove(0);
            proof {
                assert(e == orig[k]);
                assert(orig.skip(k).remove(0) =~= orig.skip(k + 1));
                assert(orig.take(k + 1).drop_last() =~= orig.take(k));
                assert(orig.take(k + 1).last() == orig[k]);
            }
            if Self::is_image(&e.path) {
                let metadata = match e.metadata {
                    Some(m) => m,
                    None => Metadata::default(),
                };
                let p = Picture::new(e.path, metadata);
                out.push(p);
            }
        }
        proof {
            assert(orig.take(orig.len() as int) =~= orig);
        }
        out
    }

    /// Sort the catalog by the chosen field and direction.
    pub fn sort_pictures(&mut self)
        ensures
            final(self).pictures@ == ssort(
                old(self).pictures@,
                old(self).sort.field,
                old(self).sort.order,
            ),
            final(self).paths == old(self).paths,
            final(self).resize == old(self).resize,
            final(self).format == old(self).format,
            final(self).rotate == old(self).rotate,
            final(self).sort == old(self).sort,
            final(self).errors == old(self).errors,
            final(self).is_in_process == old(self).is_in_process,
            final(self).is_processed == old(self).is_processed,
    {
        let sort = self.sort;
        sort.apply(&mut self.pictures);
    }

    /// Borrow the catalog.
    pub fn get_pictures(&self) -> (r: &Vec<Picture>)
        ensures
            r == self.pictures,
    {
        &self.pictures
    }

    /// Record a chosen source directory together with the scan of it:
    /// the catalog is fully replaced and sorted. Nothing happens when no
    /// path was chosen.
    pub fn set_source_path(&mut self, path: Option<String>, is_dir: bool, entries: Vec<ScanEntry>)
        ensures
            path is None ==> *final(self) == *old(self),
            path matches Some(p) ==> final(self).paths.source == p,
            path is Some ==> final(self).paths.source_is_dir == is_dir,
            path is Some ==> final(self).paths.destination == old(self).paths.destination,
            path is Some ==> final(self).paths.destination_is_dir == old(self).paths.destination_is_dir,
            path is Some ==> (exists|c: Seq<Picture>|
                catalog_matches(entries@, c) && final(self).pictures@ == ssort(
                    c,
                    old(self).sort.field,
                    old(self).sort.order,
                )),
            path is Some ==> forall|i: int|
                0 <= i < final(self).pictures@.len() ==> is_image_path(
                    (#[trigger] final(self).pictures@[i]).path@,
                ),
            final(self).resize == old(self).resize,
            final(self).format == old(self).format,
            final(self).rotate == old(self).rotate,
            final(self).sort == old(self).sort,
            final(self).errors == old(self).errors,
            final(self).is_in_process == old(self).is_in_process,
            final(self).is_processed == old(self).is_processed,
    {
        match path {
            Some(p) => {
                self.paths.source = p;
                self.paths.source_is_dir = is_dir;
                let catalog = Self::build_catalog(entries);
                let ghost c = catalog@;
                self.pictures = catalog;
                self.sort_pictures();
                proof {
                    assert(catalog_matches(entries@, c) && self.pictures@ == ssort(
                        c,
                        old(self).sort.field,
                        old(self).sort.order,
                    ));
                    lemma_catalog_all_images(entries@, c, old(self).sort.field, old(self).sort.order);
                }
            },
            None => {},
        }
    }

    /// Record a chosen destination directory. Nothing happens when no
    /// path was chosen.
    pub fn set_destination_path(&mut self, path: Option<String>, is_dir: bool)
        ensures
            path is None ==> *final(self) == *old(self),
            path matches Some(p) ==> *final(self) == (Application {
                paths: Paths {
                    destination: p,
                    destination_is_dir: is_dir,
                    ..old(self).paths
                },
                ..*old(self)
            }),
    {
        match path {
            Some(p) => {
                self.paths.destination = p;
                self.paths.destination_is_dir = is_dir;
            },
            None => {},
        }
    }

    /// Select every picture of the catalog.
    pub fn select_all(&mut self)
        ensures
            final(self).pictures@.len() == old(self).pictures@.len(),
            forall|i: int|
                0 <= i < old(self).pictures@.len() ==> final(self).pictures@[i] == (Picture {
                    is_selected: true,
                    ..old(self).pictures@[i]
                }),
            final(self).paths == old(self).paths,
            final(self).resize == old(self).resize,
            final(self).format == old(self).format,
            final(self).rotate == old(self).rotate,
            final(self).sort == old(self).sort,
            final(self).errors == old(self).errors,
            final(self).is_in_process == old(self).is_in_process,
            final(self).is_processed == old(self).is_processed,
    {
        set_all_selected(&mut self.pictures, true);
    }

    /// Unselect every picture of the catalog.
    pub fn unselect_all(&mut self)
        ensures
            final(self).pictures@.len() == old(self).pictures@.len(),
            forall|i: int|
                0 <= i < old(self).pictures@.len() ==> final(self).pictures@[i] == (Picture {
                    is_selected: false,
                    ..old(self).pictures@[i]
                }),
            final(self).paths == old(self).paths,
            final(self).resize == old(self).resize,
            final(self).format == old(self).format,
            final(self).rotate == old(self).rotate,
            final(self).sort == old(self).sort,
            final(self).errors == old(self).errors,
            final(self).is_in_process == old(self).is_in_process,
            final(self).is_processed == old(self).is_processed,
    {
        set_all_selected(&mut self.pictures, false);
    }

    /// Run a transform over the catalog: every selected picture is
    /// processed independently with its own decode outcome, unselected
    /// pictures are untouched and produce no write. Errors are appended
    /// to the batch list, tagged with the picture's name; one picture's
    /// failure never reaches another. The returned write jobs carry the
    /// built output paths; the boundary performs the writes.
    pub fn transform(&mut self, decoded: Vec<DecodeOutcome>) -> (jobs: Vec<(String, Vec<u8>)>)
        requires
            decoded@.len() == old(self).pictures@.len(),
            old(self).format.image == Some(ImageKind::Avif) ==> 1 <= old(self).format.quality.value <= 100 && 1 <= old(self).format.speed.value <= 10,
        ensures
            final(self).pictures@.len() == old(self).pictures@.len(),
            forall|i: int|
                0 <= i < old(self).pictures@.len() ==> final(self).pictures@[i] == pic_after(
                    #[trigger] old(self).pictures@[i],
                ),
            forall|i: int|
                0 <= i < old(self).pictures@.len() && !(#[trigger] old(self).pictures@[i]).is_selected ==> final(self).pictures@[i] == old(self).pictures@[i],
            final(self).errors@.len() >= old(self).errors@.len(),
            final(self).errors@.take(old(self).errors@.len() as int) == old(self).errors@,
            forall|i: int|
                0 <= i < old(self).pictures@.len() && (#[trigger] old(self).pictures@[i]).is_selected && !(decoded@[i] is Loaded)
                    ==> has_image_error(final(self).errors@, file_name_of(old(self).pictures@[i].path@)),
            forall|k: int|
                0 <= k < jobs@.len() ==> job_matches(
                    old(self).pictures@,
                    old(self).paths.destination@,
                    old(self).format.image,
                    #[trigger] jobs@[k],
                ),
            forall|i: int|
                0 <= i < old(self).pictures@.len() && (#[trigger] old(self).pictures@[i]).is_selected && decoded@[i] is Loaded ==> match old(self).format.image {
                    Some(k) => has_job_at(
                        jobs@,
                        expected_job_path(old(self).paths.destination@, old(self).pictures@[i], k),
                    ) || has_format_error(
                        final(self).errors@,
                        file_name_of(old(self).pictures@[i].path@),
                    ),
                    None => true,
                },
            final(self).errors@.len() <= old(self).errors@.len() + old(self).pictures@.len(),
            forall|k: int|
                old(self).errors@.len() <= k < final(self).errors@.len() ==> appended_error_ok(
                    old(self).pictures@,
                    decoded@,
                    old(self).format.image,
                    #[trigger] final(self).errors@[k],
                ),
            final(self).paths == old(self).paths,
            final(self).resize == old(self).resize,
            final(self).format == old(self).format,
            final(self).rotate == old(self).rotate,
            final(self).sort == old(self).sort,
            final(self).is_in_process == old(self).is_in_process,
            final(self).is_processed == old(self).is_processed,
    {
        let ghost old_pics = self.pictures@;
        let ghost old_errs = self.errors@;
        let ghost old_dec = decoded@;
        let ghost n = old_pics.len() as int;
        let mut decoded = decoded;
        let mut jobs: Vec<(String, Vec<u8>)> = Vec::new();
        let mut i: usize = 0;
        while i < self.pictures.len()
            invariant
                self.pictures@.len() == n,
                old_pics.len() == n,
                i <= n,
                decoded@ == old_dec.skip(i as int),
                old_dec.len() == n,
                self.format.image == Some(ImageKind::Avif) ==> 1 <= self.format.quality.value
                    <= 100 && 1 <= self.format.speed.value <= 10,
                forall|j: int|
                    0 <= j < i ==> self.pictures@[j] == pic_after(#[trigger] old_pics[j]),
                forall|j: int| i <= j < n ==> self.pictures@[j] == old_pics[j],
                self.errors@.len() >= old_errs.len(),
                self.errors@.take(old_errs.len() as int) == old_errs,
                forall|j: int|
                    0 <= j < i && (#[trigger] old_pics[j]).is_selected && !(old_dec[j] is Loaded)
                        ==> has_image_error(self.errors@, file_name_of(old_pics[j].path@)),
                forall|k: int|
                    0 <= k < jobs@.len() ==> job_matches(
                        old_pics,
                        self.paths.destination@,
                        self.format.image,
                        #[trigger] jobs@[k],
                    ),
                forall|j: int|
                    0 <= j < i && (#[trigger] old_pics[j]).is_selected && old_dec[j] is Loaded ==> match self.format.image {
                        Some(fk) => has_job_at(
                            jobs@,
                            expected_job_path(self.paths.destination@, old_pics[j], fk),
                        ) || has_format_error(self.errors@, file_name_of(old_pics[j].path@)),
                        None => true,
                    },
                self.errors@.len() <= old_errs.len() + i,
                forall|k: int|
                    old_errs.len() <= k < self.errors@.len() ==> appended_error_ok(
                        old_pics,
                        old_dec,
                        self.format.image,
                        #[trigger] self.errors@[k],
                    ),
                self.paths == old(self).paths,
                self.resize == old(self).resize,
                self.format == old(self).format,
                self.rotate == old(self).rotate,
                self.sort == old(self).sort,
                self.errors@.len() >= old(self).errors@.len(),
                self.is_in_process == old(self).is_in_process,
                self.is_processed == old(self).is_processed,
                old_errs == old(self).errors@,
                old_pics == old(self).pictures@,
            decreases n - i,
        {
            proof {
                assert(old_dec.skip(i as int)[0] == old_dec[i as int]);
            }
            let d = decoded.remove(0);
            proof {
                assert(old_dec.skip(i as int).remove(0) =~= old_dec.skip(i + 1));
            }
            let ghost pics_before = self.pictures@;
            let mut p = self.pictures.remove(i);
            let (job, error) = transform_picture(
                &mut p,
                d,
                &self.resize,
                &self.rotate,
                &self.format,
                &self.paths.destination,
            );
            self.pictures.insert(i, p);
            proof {
                assert(self.pictures@ =~= pics_before.update(i as int, p));
                assert(pics_before[i as int] == old_pics[i as int]);
            }
            let ghost errs_before = self.errors@;
            match error {
                Some(e) => {
                    self.errors.push(e);
                    proof {
                        assert forall|k: int| 0 <= k < errs_before.len() implies self.errors@[k]
                            == errs_before[k] by {}
                        assert(self.errors@.take(old_errs.len() as int) =~= errs_before.take(
                            old_errs.len() as int,
                        ));
                        assert forall|j: int|
                            0 <= j < i + 1 && (#[trigger] old_pics[j]).is_selected && !(old_dec[j]
                                is Loaded) implies has_image_error(
                            self.errors@,
                            file_name_of(old_pics[j].path@),
                        ) by {
                            if j < i {
                                lemma_has_image_error_push(
                                    errs_before,
                                    e,
                                    file_name_of(old_pics[j].path@),
                                );
                            } else {
                                assert(self.errors@[errs_before.len() as int] == e);
                            }
                        }
                        assert forall|k: int|
                            old_errs.len() <= k < self.errors@.len() implies appended_error_ok(
                            old_pics,
                            old_dec,
                            self.format.image,
                            #[trigger] self.errors@[k],
                        ) by {
                            if k < errs_before.len() {
                                assert(self.errors@[k] == errs_before[k]);
                            } else {
                                assert(self.errors@[k] == e);
                                assert((#[trigger] old_pics[i as int]).is_selected);
                                if old_dec[i as int] is Loaded {
                                    assert(self.format.image is Some);
                                }
                            }
                        }
                        assert forall|j: int|
                            0 <= j < i + 1 && (#[trigger] old_pics[j]).is_selected && old_dec[j]
                                is Loaded implies match self.format.image {
                            Some(fk) => has_job_at(
                                jobs@,
                                expected_job_path(self.paths.destination@, old_pics[j], fk),
                            ) || has_format_error(self.errors@, file_name_of(old_pics[j].path@)),
                            None => true,
                        } by {
                            match self.format.image {
                                Some(fk) => {
                                    if j < i {
                                        if has_format_error(
                                            errs_before,
                                            file_name_of(old_pics[j].path@),
                                        ) {
                                            lemma_has_format_error_push(
                                                errs_before,
                                                e,
                                                file_name_of(old_pics[j].path@),
                                            );
                                        }
                                    } else {
                                        assert(self.errors@[errs_before.len() as int] == e);
                                    }
                                },
                                None => {},
                            }
                        }
                    }
                },
                None => {},
            }
            let ghost jobs_before = jobs@;
            match job {
                Some(j) => {
                    jobs.push(j);
                    proof {
                        assert(job_matches(
                            old_pics,
                            self.paths.destination@,
                            self.format.image,
                            j,
                        )) by {
                            assert((#[trigger] old_pics[i as int]).is_selected);
                        }
                        assert forall|k: int| 0 <= k < jobs@.len() implies job_matches(
                            old_pics,
                            self.paths.destination@,
                            self.format.image,
                            #[trigger] jobs@[k],
                        ) by {
                            if k < jobs_before.len() {
                                assert(jobs@[k] == jobs_before[k]);
                            } else {
                                assert(jobs@[k] == j);
                            }
                        }
                        assert forall|jx: int|
                            0 <= jx < i + 1 && (#[trigger] old_pics[jx]).is_selected && old_dec[jx]
                                is Loaded implies match self.format.image {
                            Some(fk) => has_job_at(
                                jobs@,
                                expected_job_path(self.paths.destination@, old_pics[jx], fk),
                            ) || has_format_error(self.errors@, file_name_of(old_pics[jx].path@)),
                            None => true,
                        } by {
                            match self.format.image {
                                Some(fk) => {
                                    if jx < i {
                                        if has_job_at(
                                            jobs_before,
                                            expected_job_path(
                                                self.paths.destination@,
                                                old_pics[jx],
                                                fk,
                                            ),
                                        ) {
                                            lemma_has_job_at_push(
                                                jobs_before,
                                                j,
                                                expected_job_path(
                                                    self.paths.destination@,
                                                    old_pics[jx],
                                                    fk,
                                                ),
                                            );
                                        }
                                    } else {
                                        assert(jobs@[jobs_before.len() as int] == j);
                                    }
                                },
                                None => {},
                            }
                        }
                    }
                },
                None => {},
            }
            i = i + 1;
        }
        jobs
    }

    /// Is every picture of the catalog selected?
    pub fn is_all_selected(&self) -> (r: bool)
        ensures
            r == (forall|i: int|
                0 <= i < self.pictures@.len() ==> (#[trigger] self.pictures@[i]).is_selected),
    {
        let mut i: usize = 0;
        while i < self.pictures.len()
            invariant
                i <= self.pictures@.len(),
                forall|j: int| 0 <= j < i ==> (#[trigger] self.pictures@[j]).is_selected,
            decreases self.pictures@.len() - i,
        {
            if !self.pictures[i].is_selected {
                return false;
            }
            i = i + 1;
        }
        true
    }
}

/// What the boundary handed the pipeline for one picture: nothing (it
/// was not selected, so nothing was read), a decoder failure, or the
/// decoded raster.
pub enum DecodeOutcome {
    NotLoaded,
    Failed(String),
    Loaded(Raster),
}

impl DecodeOutcome {
    /// Wrap what the boundary's decoder produced for a selected picture:
    /// a raster to work on, or the decoder's message.
    pub fn from_decode(result: Result<image::DynamicImage, String>) -> (r: DecodeOutcome)
        ensures
            result is Ok ==> r is Loaded,
            result matches Err(m) ==> (r matches DecodeOutcome::Failed(m2) && m2 == m),
    {
        match result {
            Ok(img) => DecodeOutcome::Loaded(Raster::from_image(img)),
            Err(m) => DecodeOutcome::Failed(m),
        }
    }
}

/// The state a picture is left in by a transform run: a selected
/// picture ends terminal (processed, not in process), an unselected one
/// is untouched. A function of that picture alone: no sibling's outcome
/// enters it.
pub open spec fn pic_after(p: Picture) -> Picture {
    if p.is_selected {
        Picture { is_in_process: false, is_processed: true, ..p }
    } else {
        p
    }
}

/// An unselected picture is untouched by a run: same flags, same
/// everything.
pub proof fn lemma_unselected_untouched(p: Picture)
    requires
        !p.is_selected,
    ensures
        pic_after(p) == p,
{
}

/// Every selected picture reaches its terminal state, whatever became
/// of its own decode or of any other picture's: `pic_after` reads
/// nothing but the picture itself.
pub proof fn lemma_completion_isolated(p: Picture)
    requires
        p.is_selected,
    ensures
        pic_after(p).is_processed,
        !pic_after(p).is_in_process,
        pic_after(p).path == p.path,
        pic_after(p).is_selected,
{
}

/// Does the batch error list hold a decode error naming `name`?
pub open spec fn has_image_error(errs: Seq<TransformationError>, name: Seq<char>) -> bool {
    exists|k: int|
        0 <= k < errs.len() && ((#[trigger] errs[k]) matches TransformationError::Image(m) && m@
            == name)
}

proof fn lemma_has_image_error_push(errs: Seq<TransformationError>, x: TransformationError, name: Seq<char>)
    requires
        has_image_error(errs, name),
    ensures
        has_image_error(errs.push(x), name),
{
    let k = choose|k: int|
        0 <= k < errs.len() && ((#[trigger] errs[k]) matches TransformationError::Image(m) && m@
            == name);
    assert(errs.push(x)[k] == errs[k]);
}

/// Does the batch error list hold an encode error naming `name`?
pub open spec fn has_format_error(errs: Seq<TransformationError>, name: Seq<char>) -> bool {
    exists|k: int|
        0 <= k < errs.len() && ((#[trigger] errs[k]) matches TransformationError::Format(m) && m@
            == name)
}

proof fn lemma_has_format_error_push(
    errs: Seq<TransformationError>,
    x: TransformationError,
    name: Seq<char>,
)
    requires
        has_format_error(errs, name),
    ensures
        has_format_error(errs.push(x), name),
{
    let k = choose|k: int|
        0 <= k < errs.len() && ((#[trigger] errs[k]) matches TransformationError::Format(m) && m@
            == name);
    assert(errs.push(x)[k] == errs[k]);
}

/// Does some write job of the run carry exactly this output path?
pub open spec fn has_job_at(jobs: Seq<(String, Vec<u8>)>, path: Seq<char>) -> bool {
    exists|k: int| 0 <= k < jobs.len() && (#[trigger] jobs[k]).0@ == path
}

proof fn lemma_has_job_at_push(jobs: Seq<(String, Vec<u8>)>, x: (String, Vec<u8>), path: Seq<char>)
    requires
        has_job_at(jobs, path),
    ensures
        has_job_at(jobs.push(x), path),
{
    let k = choose|k: int| 0 <= k < jobs.len() && (#[trigger] jobs[k]).0@ == path;
    assert(jobs.push(x)[k] == jobs[k]);
}

/// The output path a run owes picture `p` under format kind `k`: the
/// built path below the destination, with the format's extension.
pub open spec fn expected_job_path(dest: Seq<char>, p: Picture, k: ImageKind) -> Seq<char> {
    with_extension(built_path(dest, p.name), extension_of_kind(k))
}

/// An error a run appends: it names a selected picture, as a decode
/// error when that picture's decode failed, as an encode error when it
/// decoded under a set target format.
pub open spec fn appended_error_ok(
    pics: Seq<Picture>,
    decoded: Seq<DecodeOutcome>,
    img: Option<ImageKind>,
    e: TransformationError,
) -> bool {
    exists|i: int|
        0 <= i < pics.len() && (#[trigger] pics[i]).is_selected && ((!(decoded[i] is Loaded) && (
        e matches TransformationError::Image(n) && n@ == file_name_of(pics[i].path@))) || ((
        decoded[i] is Loaded) && img is Some && (e matches TransformationError::Format(n) && n@
            == file_name_of(pics[i].path@))))
}

/// Is `job` a write for one of the selected pictures of `pics`: its
/// path the built output path under `dest` with the extension of the
/// configured format?
pub open spec fn job_matches(
    pics: Seq<Picture>,
    dest: Seq<char>,
    img: Option<ImageKind>,
    job: (String, Vec<u8>),
) -> bool {
    exists|i: int|
        0 <= i < pics.len() && (#[trigger] pics[i]).is_selected && match img {
            Some(fk) => job.0@ == expected_job_path(dest, pics[i], fk),
            None => false,
        }
}

/// Run the pipeline steps for one picture: skip it if unselected; mark
/// it in process; normalize the orientation from the embedded code,
/// resize, apply the user's rotation and encode; mark it processed.
/// The write job, if any, carries the built output path; a failure is
/// reported as an error naming the picture.
pub fn transform_picture(
    picture: &mut Picture,
    decoded: DecodeOutcome,
    resize: &Resize,
    rotate: &Rotate,
    format: &Format,
    destination: &String,
) -> (r: (Option<(String, Vec<u8>)>, Option<TransformationError>))
    requires
        format.image == Some(ImageKind::Avif) ==> 1 <= format.quality.value <= 100 && 1
            <= format.speed.value <= 10,
    ensures
        *final(picture) == pic_after(*old(picture)),
        !old(picture).is_selected ==> (r.0 is None && r.1 is None),
        old(picture).is_selected && !(decoded is Loaded) ==> (r.0 is None && (r.1 matches Some(e)
            && e matches TransformationError::Image(n) && n@ == file_name_of(
            old(picture).path@,
        ))),
        old(picture).is_selected && decoded is Loaded && format.image is None ==> (r.0 is None
            && r.1 is None),
        old(picture).is_selected && decoded is Loaded ==> match format.image {
            Some(k) => match r.0 {
                Some(job) => r.1 is None && job.0@ == with_extension(
                    built_path(destination@, old(picture).name),
                    extension_of_kind(k),
                ),
                None => r.1 matches Some(e) && e matches TransformationError::Format(n) && n@
                    == file_name_of(old(picture).path@),
            },
            None => true,
        },
{
    if !picture.is_selected {
        return (None, None);
    }
    picture.is_in_process = true;
    let mut job: Option<(String, Vec<u8>)> = None;
    let mut error: Option<TransformationError> = None;
    match decoded {
        DecodeOutcome::Loaded(mut raster) => {
            crate::rotate::set_initial_rotation(picture.metadata.rotation, &mut raster);
            resize.apply(&mut raster);
            rotate.apply(&mut raster, None);
            let path = picture.name.build(destination.as_str());
            match format.apply(&raster, &path) {
                Ok(Some(out)) => {
                    job = Some(out);
                },
                Ok(None) => {},
                Err(_) => {
                    error = Some(TransformationError::Format(picture.get_name()));
                },
            }
        },
        _ => {
            error = Some(TransformationError::Image(picture.get_name()));
        },
    }
    picture.is_in_process = false;
    picture.is_processed = true;
    proof {
        assert(*picture == pic_after(*old(picture)));
    }
    (job, error)
}

/// Set the selection flag of every picture.
fn set_all_selected(pictures: &mut Vec<Picture>, value: bool)
    ensures
        final(pictures)@.len() == old(pictures)@.len(),
        forall|i: int|
            0 <= i < old(pictures)@.len() ==> final(pictures)@[i] == (Picture {
                is_selected: value,
                ..old(pictures)@[i]
            }),
{
    let mut i: usize = 0;
    while i < pictures.len()
        invariant
            i <= pictures@.len(),
            pictures@.len() == old(pictures)@.len(),
            forall|j: int|
                0 <= j < i ==> pictures@[j] == (Picture {
                    is_selected: value,
                    ..old(pictures)@[j]
                }),
            forall|j: int| i <= j < pictures@.len() ==> pictures@[j] == old(pictures)@[j],
        decreases pictures@.len() - i,
    {
        let ghost before = pictures@;
        let mut p = pictures.remove(i);
        p.is_selected = value;
        pictures.insert(i, p);
        proof {
            assert(pictures@ =~= before.update(i as int, p));
        }
        i = i + 1;
    }
}

} // verus!
