use esp_csi_tui::channel::forward;
use esp_csi_tui::listener::ListenerEvent;
use esp_csi_tui::App;
use tokio::sync::mpsc;

#[test]
fn drain_takes_everything_buffered_in_order() {
    let (tx, mut rx) = mpsc::channel::<Vec<f64>>(10);
    tx.try_send(vec![1.0]).unwrap();
    tx.try_send(vec![2.0]).unwrap();
    tx.try_send(vec![3.0, 3.5]).unwrap();
    let mut app: App<f64> = App::new();
    assert_eq!(app.drain_channel(&mut rx), 3);
    let got: Vec<(Vec<f64>, u64)> = app
        .csi_history
        .iter()
        .map(|p| (p.amplitude.clone(), p.sequence))
        .collect();
    assert_eq!(got, vec![(vec![1.0], 0), (vec![2.0], 1), (vec![3.0, 3.5], 2)]);
    assert_eq!(app.drain_channel(&mut rx), 0);
    assert_eq!(app.csi_history.len(), 3);
}

#[test]
fn drain_after_sender_dropped_takes_the_rest() {
    let (tx, mut rx) = mpsc::channel::<Vec<f64>>(4);
    tx.try_send(vec![7.0]).unwrap();
    drop(tx);
    let mut app: App<f64> = App::new();
    assert_eq!(app.drain_channel(&mut rx), 1);
    assert_eq!(app.latest().unwrap().amplitude, vec![7.0]);
}

#[test]
fn forward_skips_lines_that_are_not_measurements() {
    let (tx, mut rx) = mpsc::channel::<Vec<f64>>(2);
    assert_eq!(forward(&tx, None), ListenerEvent::Skipped);
    assert!(rx.try_recv().is_err());
}

#[test]
fn forward_delivers_then_drops_when_full() {
    let (tx, mut rx) = mpsc::channel::<Vec<f64>>(1);
    assert_eq!(forward(&tx, Some(vec![1.0])), ListenerEvent::Delivered);
    assert_eq!(forward(&tx, Some(vec![2.0])), ListenerEvent::ChannelFull);
    assert_eq!(rx.try_recv().unwrap(), vec![1.0]);
    assert!(rx.try_recv().is_err());
}

#[test]
fn forward_reports_a_closed_receiver() {
    let (tx, rx) = mpsc::channel::<Vec<f64>>(1);
    drop(rx);
    assert_eq!(forward(&tx, Some(vec![1.0])), ListenerEvent::ChannelClosed);
}
