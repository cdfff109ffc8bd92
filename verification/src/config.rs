//! The settings of a scan, fixed when it starts.

use crate::entropy::SAMPLE_WINDOW;
use crate::evaluate::FileEvaluator;
use crate::evaluate::Score;
use crate::evaluate::DEFAULT_THRESHOLD_BITS;
use crate::filter::FileFilter;
use crate::filter::DEFAULT_MIN_SIZE;
use crate::scan::ScanCoordinator;
use crate::scan::ScanModel;
use vstd::prelude::*;

verus! {

/// Number of workers unless configured otherwise.
pub const DEFAULT_POOL_SIZE: usize = 4;

/// Number of jobs that the queue holds unless configured otherwise.
pub const DEFAULT_QUEUE_CAPACITY: usize = 100;

/// Everything that can be tuned about a scan.
#[derive(Clone, Copy, Debug)]
pub struct ScanConfig {
    /// Smallest file, in bytes, that is evaluated.
    pub min_file_size: u64,
    /// Whether only files of a whole number of sectors are evaluated.
    pub require_sector_alignment: bool,
    /// Score from which a file is a finding.
    pub entropy_threshold: Score,
    /// Number of bytes sampled at each end of a file.
    pub sample_window: u64,
    /// Number of workers.
    pub worker_pool_size: usize,
    /// Most jobs that wait for a worker at one time.
    pub queue_capacity: usize,
    /// Whether the traversal follows symbolic links.
    pub follow_symlinks: bool,
    /// Whether the type of a finding is probed.
    pub probe_types: bool,
}

impl Default for ScanConfig {
    fn default() -> (config: ScanConfig)
        ensures
            config.min_file_size == DEFAULT_MIN_SIZE,
            config.require_sector_alignment,
            config.entropy_threshold.pattern() == DEFAULT_THRESHOLD_BITS,
            config.sample_window == SAMPLE_WINDOW,
            config.worker_pool_size == DEFAULT_POOL_SIZE,
            config.queue_capacity == DEFAULT_QUEUE_CAPACITY,
            !config.follow_symlinks,
            config.probe_types,
    {
        ScanConfig {
            min_file_size: DEFAULT_MIN_SIZE,
            require_sector_alignment: true,
            entropy_threshold: Score::default_threshold(),
            sample_window: SAMPLE_WINDOW,
            worker_pool_size: DEFAULT_POOL_SIZE,
            queue_capacity: DEFAULT_QUEUE_CAPACITY,
            follow_symlinks: false,
            probe_types: true,
        }
    }
}

impl ScanConfig {
    /// The filter that the settings describe.
    pub open spec fn filter_of(self) -> FileFilter {
        FileFilter {
            min_size: self.min_file_size,
            require_sector_alignment: self.require_sector_alignment,
        }
    }

    /// The evaluator that the settings describe.
    pub open spec fn evaluator_of(self) -> FileEvaluator {
        FileEvaluator {
            filter: self.filter_of(),
            window: self.sample_window,
            threshold: self.entropy_threshold,
            probe_types: self.probe_types,
        }
    }

    /// The filter that the settings describe.
    pub fn filter(&self) -> (filter: FileFilter)
        ensures
            filter == self.filter_of(),
    {
        FileFilter {
            min_size: self.min_file_size,
            require_sector_alignment: self.require_sector_alignment,
        }
    }

    /// The evaluator that the settings describe.
    pub fn evaluator(&self) -> (evaluator: FileEvaluator)
        ensures
            evaluator == self.evaluator_of(),
    {
        FileEvaluator {
            filter: self.filter(),
            window: self.sample_window,
            threshold: self.entropy_threshold,
            probe_types: self.probe_types,
        }
    }

    /// A coordinator for a scan under these settings that has not begun.
    pub fn coordinator(&self) -> (coordinator: ScanCoordinator)
        ensures
            coordinator.well_formed(),
            coordinator@ == (ScanModel {
                filter: self.filter_of(),
                capacity: self.queue_capacity as nat,
                pool_size: self.worker_pool_size as nat,
                jobs: Seq::empty(),
                queue: Seq::empty(),
                closed: false,
                cancelled: false,
            }),
    {
        ScanCoordinator::new(self.filter(), self.queue_capacity, self.worker_pool_size)
    }
}

} // verus!
