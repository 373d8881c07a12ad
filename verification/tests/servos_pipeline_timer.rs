use std::cell::RefCell;
use std::rc::Rc;

use opengyro::myhal::servos::{Servo, ServoController};
use opengyro::pipeline::{add_one, execute_a_pipeline_i_guess, ClosurePipeline, PipelineElement, Sum};
use opengyro::timer::UpTimer;

struct LoggingServo {
    id: usize,
    last_us: u16,
    log: Rc<RefCell<Vec<(usize, u16)>>>,
}

impl Servo for LoggingServo {
    fn commanded_us(&self) -> u16 {
        self.last_us
    }

    fn commanded_from(&self, before: &Self, us: u16) -> bool {
        self.id == before.id && self.last_us == us
    }

    fn set_us(&mut self, us: u16) {
        self.last_us = us;
        self.log.borrow_mut().push((self.id, us));
    }
}

#[test]
fn servo_controller_sets_each_servo_in_order() {
    let log = Rc::new(RefCell::new(Vec::new()));
    let servos = [
        LoggingServo { id: 0, last_us: 0, log: log.clone() },
        LoggingServo { id: 1, last_us: 0, log: log.clone() },
        LoggingServo { id: 2, last_us: 0, log: log.clone() },
    ];
    let mut controller = ServoController::new(servos);
    controller.set_servo_us([1000, 1500, 2000]);
    assert_eq!(*log.borrow(), vec![(0, 1000), (1, 1500), (2, 2000)]);
    controller.set_servo_us([1100, 1200, 1300]);
    assert_eq!(
        *log.borrow(),
        vec![(0, 1000), (1, 1500), (2, 2000), (0, 1100), (1, 1200), (2, 1300)]
    );
}

#[test]
fn servo_controller_with_no_servos_commands_nothing() {
    let servos: [LoggingServo; 0] = [];
    let mut controller = ServoController::new(servos);
    controller.set_servo_us([]);
}

#[test]
fn closure_stage_applies_its_function() {
    let mut stage = ClosurePipeline::new(add_one);
    assert_eq!(stage.execute(41), 42);
    assert_eq!(stage.execute(-1), 0);
}

#[test]
fn two_stages_chain() {
    let x = ClosurePipeline::new(add_one);
    let y = ClosurePipeline::new(add_one);
    assert_eq!(execute_a_pipeline_i_guess(1, x, y), 3);
    let x = ClosurePipeline::new(add_one);
    let y = Sum { sum: 10isize };
    assert_eq!(execute_a_pipeline_i_guess(4, x, y), 5);
}

#[test]
fn add_one_adds_one() {
    assert_eq!(add_one(0), 1);
    assert_eq!(add_one(isize::MAX - 1), isize::MAX);
    assert_eq!(add_one(isize::MIN), isize::MIN + 1);
}

#[test]
fn sum_stage_passes_input_and_accumulates() {
    let mut sum = Sum { sum: 0u32 };
    assert_eq!(sum.execute(3), 3);
    assert_eq!(sum.execute(4), 4);
    assert_eq!(sum.sum, 7);
}

#[test]
fn up_timer_measures_since_start_and_reset() {
    let mut timer = UpTimer::new(5);
    assert_eq!(timer.elapsed_ms(5), 0);
    assert_eq!(timer.elapsed_ms(12), 7);
    timer.reset(100);
    assert_eq!(timer.elapsed_ms(130), 30);
}
