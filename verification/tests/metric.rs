use agentplay::metric::{BlockDifferenceMetric, FrameDifferenceMetric, MetricError};
use agentplay::model::Frame;

fn solid(width: u32, height: u32, value: u8) -> Frame {
    Frame {
        width,
        height,
        rgba: vec![value; (width * height * 4) as usize],
    }
}

#[test]
fn identical_frames_score_zero() {
    let a = solid(33, 17, 90);
    assert_eq!(BlockDifferenceMetric::default().difference(&a, &a), Ok(0));
}

#[test]
fn full_change_scores_ten_thousand_and_is_symmetric() {
    let a = solid(32, 32, 0);
    let b = solid(32, 32, 200);
    let mut metric = BlockDifferenceMetric::default();
    assert_eq!(metric.difference(&a, &b), Ok(10_000));
    assert_eq!(metric.difference(&b, &a), Ok(10_000));
}

#[test]
fn partial_blocks_at_the_edges_count_as_blocks() {
    // 20 x 20 with 16-pixel blocks: 2 x 2 blocks, one of them a full 16 x 16 block.
    let a = solid(20, 20, 0);
    let mut b = a.clone();
    for y in 16..20 {
        for x in 16..20 {
            let i = (y * 20 + x) * 4;
            b.rgba[i] = 255;
            b.rgba[i + 1] = 255;
            b.rgba[i + 2] = 255;
        }
    }
    assert_eq!(BlockDifferenceMetric::default().difference(&a, &b), Ok(2_500));
}

#[test]
fn mean_change_must_exceed_threshold() {
    let metric_threshold = BlockDifferenceMetric {
        block_size: 4,
        mean_channel_delta_threshold: 5,
    };
    let a = solid(4, 4, 10);
    let b = solid(4, 4, 15);
    let c = solid(4, 4, 16);
    let mut m = metric_threshold.clone();
    assert_eq!(m.difference(&a, &b), Ok(0));
    assert_eq!(m.difference(&a, &c), Ok(10_000));
}

#[test]
fn alpha_is_ignored() {
    let a = solid(4, 4, 0);
    let mut b = a.clone();
    for i in (3..b.rgba.len()).step_by(4) {
        b.rgba[i] = 255;
    }
    assert_eq!(BlockDifferenceMetric::default().difference(&a, &b), Ok(0));
}

#[test]
fn each_error_is_reported() {
    let mut m = BlockDifferenceMetric::default();
    assert_eq!(
        m.difference(&solid(4, 4, 0), &solid(4, 5, 0)),
        Err(MetricError::DimensionsChanged)
    );
    let mut zero = BlockDifferenceMetric {
        block_size: 0,
        mean_channel_delta_threshold: 5,
    };
    assert_eq!(
        zero.difference(&solid(4, 4, 0), &solid(4, 4, 0)),
        Err(MetricError::ZeroBlockSize)
    );
    let huge = Frame {
        width: u32::MAX,
        height: u32::MAX,
        rgba: Vec::new(),
    };
    assert_eq!(
        m.difference(&huge, &huge.clone()),
        Err(MetricError::DimensionsOverflow)
    );
    let short = Frame {
        width: 2,
        height: 2,
        rgba: vec![0; 15],
    };
    assert_eq!(
        m.difference(&short, &solid(2, 2, 0)),
        Err(MetricError::InvalidBufferLength)
    );
    assert_eq!(
        m.difference(&solid(0, 3, 0), &solid(0, 3, 0)),
        Err(MetricError::EmptyFrame)
    );
}
